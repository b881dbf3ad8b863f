//! Pattern matching for expressions
//!
//! Patterns can include:
//! - `Capture(name)` - capture a subexpression
//! - `PatAny` - match anything
//! - `Ellipsis` - match zero or more elements of a list
//! - Concrete values - match exactly

use vstd::prelude::*;
use crate::evm_core::types::{Exp, ExpV, ev, evs, lemma_evs, copy_exp};

verus! {

/// Special marker for matching anything
#[derive(Debug, Clone, Copy)]
pub struct PatAny;

impl PatAny {
    pub fn new() -> (r: Self)
        ensures
            r == PatAny,
    {
        PatAny
    }
}

/// A set of named captures, where a later binding of a name replaces an
/// earlier one.
#[derive(Debug)]
pub struct MatchResult {
    bindings: Vec<(String, Exp)>,
}

/// The map that a list of bindings denotes, later entries winning.
pub open spec fn bindings_map(s: Seq<(String, Exp)>) -> Map<Seq<char>, ExpV>
    decreases s.len(),
{
    if s.len() == 0 {
        Map::empty()
    } else {
        bindings_map(s.drop_last()).insert(s.last().0@, ev(s.last().1))
    }
}

proof fn lemma_bindings_append(a: Seq<(String, Exp)>, b: Seq<(String, Exp)>)
    ensures
        bindings_map(a + b) == bindings_map(a).union_prefer_right(bindings_map(b)),
    decreases b.len(),
{
    if b.len() == 0 {
        assert(a + b =~= a);
        assert(bindings_map(a).union_prefer_right(Map::empty()) =~= bindings_map(a));
    } else {
        lemma_bindings_append(a, b.drop_last());
        assert((a + b).drop_last() =~= a + b.drop_last());
        assert((a + b).last() == b.last());
        assert(bindings_map(a + b) =~= bindings_map(a).union_prefer_right(bindings_map(b)));
    }
}

impl View for MatchResult {
    type V = Map<Seq<char>, ExpV>;

    closed spec fn view(&self) -> Map<Seq<char>, ExpV> {
        bindings_map(self.bindings@)
    }
}

impl MatchResult {
    /// An empty result.
    pub fn new() -> (r: Self)
        ensures
            r@ == Map::<Seq<char>, ExpV>::empty(),
    {
        Self { bindings: Vec::new() }
    }

    /// Binds `name` to `value`, replacing any earlier binding of the name.
    pub fn bind(&mut self, name: &str, value: Exp)
        ensures
            final(self)@ == old(self)@.insert(name@, value@),
    {
        let ghost old_b = self.bindings@;
        self.bindings.push((String::from_str(name), value));
        assert(self.bindings@.drop_last() =~= old_b);
    }

    /// Adds all bindings of `other`, which win over those of `self`.
    pub fn extend(&mut self, other: MatchResult)
        ensures
            final(self)@ == old(self)@.union_prefer_right(other@),
    {
        let ghost a = self.bindings@;
        let mut b = other.bindings;
        let ghost bb = b@;
        self.bindings.append(&mut b);
        proof {
            lemma_bindings_append(a, bb);
        }
    }

    /// The expression bound to `name`.
    pub fn get(&self, name: &str) -> (r: Option<&Exp>)
        ensures
            r is Some <==> self@.contains_key(name@),
            r matches Some(v) ==> v@ == self@[name@],
    {
        let mut i = self.bindings.len();
        while i > 0
            invariant
                i <= self.bindings@.len(),
                forall|k: int| i <= k < self.bindings@.len() ==> (#[trigger] self.bindings@[k]).0@ != name@,
            decreases i,
        {
            if self.bindings[i - 1].0 == String::from_str(name) {
                proof {
                    lemma_bindings_last(self.bindings@, name@, i - 1);
                }
                return Some(&self.bindings[i - 1].1);
            }
            i -= 1;
        }
        proof {
            lemma_bindings_absent(self.bindings@, name@);
        }
        None
    }

    /// The expression bound to `name`.
    pub fn get_exp(&self, name: &str) -> (r: Option<&Exp>)
        ensures
            r is Some <==> self@.contains_key(name@),
            r matches Some(v) ==> v@ == self@[name@],
    {
        self.get(name)
    }
}

proof fn lemma_bindings_last(s: Seq<(String, Exp)>, name: Seq<char>, i: int)
    requires
        0 <= i < s.len(),
        s[i].0@ == name,
        forall|k: int| i < k < s.len() ==> (#[trigger] s[k]).0@ != name,
    ensures
        bindings_map(s).contains_key(name),
        bindings_map(s)[name] == ev(s[i].1),
    decreases s.len(),
{
    if i < s.len() - 1 {
        lemma_bindings_last(s.drop_last(), name, i);
    }
}

proof fn lemma_bindings_absent(s: Seq<(String, Exp)>, name: Seq<char>)
    requires
        forall|k: int| 0 <= k < s.len() ==> (#[trigger] s[k]).0@ != name,
    ensures
        !bindings_map(s).contains_key(name),
    decreases s.len(),
{
    if s.len() > 0 {
        lemma_bindings_absent(s.drop_last(), name);
    }
}

/// Type pattern for typed captures
#[derive(Debug, Clone, Copy, PartialEq, Eq, Structural)]
pub enum TypePattern {
    Int,
    Str,
    Var,
}

impl TypePattern {
    /// Whether an expression has the kind this pattern asks for.
    pub open spec fn matches_spec(self, e: ExpV) -> bool {
        match (self, e) {
            (TypePattern::Int, ExpV::Int(_)) => true,
            (TypePattern::Str, ExpV::Str(_)) => true,
            (TypePattern::Var, ExpV::Var(_)) => true,
            _ => false,
        }
    }

    pub fn matches(&self, exp: &Exp) -> (r: bool)
        ensures
            r == self.matches_spec(exp@),
    {
        match (self, exp) {
            (TypePattern::Int, Exp::Int(_)) => true,
            (TypePattern::Str, Exp::Str(_)) => true,
            (TypePattern::Var, Exp::Var(_)) => true,
            _ => false,
        }
    }
}

/// Pattern for matching expressions
#[derive(Debug)]
pub enum Pattern {
    /// Match anything
    PatAny,
    /// Match the empty expression
    Null,
    /// Capture a subexpression with a name
    Capture(String),
    /// Capture with type check
    CaptureTyped(String, Box<TypePattern>),
    /// Match specific int value
    Int(u128),
    /// Match specific string value
    Str(String),
    /// Match opcode with no args
    Op(String),
    /// Match opcode with 1 arg
    Op1(String, Box<Pattern>),
    /// Match opcode with 2 args
    Op2(String, Box<Pattern>, Box<Pattern>),
    /// Match opcode with 3 args
    Op3(String, Box<Pattern>, Box<Pattern>, Box<Pattern>),
    /// Match opcode with 4 args
    Op4(String, Box<Pattern>, Box<Pattern>, Box<Pattern>, Box<Pattern>),
    /// Match opcode with N args
    OpN(String, Vec<Pattern>),
    /// Ellipsis - matches zero or more
    Ellipsis,
}

/// The mathematical value of a [`Pattern`].
pub enum PatternV {
    PatAny,
    Null,
    Capture(Seq<char>),
    CaptureTyped(Seq<char>, TypePattern),
    Int(u128),
    Str(Seq<char>),
    Op(Seq<char>),
    Op1(Seq<char>, Box<PatternV>),
    Op2(Seq<char>, Box<PatternV>, Box<PatternV>),
    Op3(Seq<char>, Box<PatternV>, Box<PatternV>, Box<PatternV>),
    Op4(Seq<char>, Box<PatternV>, Box<PatternV>, Box<PatternV>, Box<PatternV>),
    OpN(Seq<char>, Seq<PatternV>),
    Ellipsis,
}

/// The value of a pattern.
pub open spec fn pv(p: Pattern) -> PatternV
    decreases p,
{
    match p {
        Pattern::PatAny => PatternV::PatAny,
        Pattern::Null => PatternV::Null,
        Pattern::Capture(s) => PatternV::Capture(s@),
        Pattern::CaptureTyped(s, t) => PatternV::CaptureTyped(s@, *t),
        Pattern::Int(n) => PatternV::Int(n),
        Pattern::Str(s) => PatternV::Str(s@),
        Pattern::Op(s) => PatternV::Op(s@),
        Pattern::Op1(s, a) => PatternV::Op1(s@, Box::new(pv(*a))),
        Pattern::Op2(s, a, b) => PatternV::Op2(s@, Box::new(pv(*a)), Box::new(pv(*b))),
        Pattern::Op3(s, a, b, c) => PatternV::Op3(
            s@,
            Box::new(pv(*a)),
            Box::new(pv(*b)),
            Box::new(pv(*c)),
        ),
        Pattern::Op4(s, a, b, c, d) => PatternV::Op4(
            s@,
            Box::new(pv(*a)),
            Box::new(pv(*b)),
            Box::new(pv(*c)),
            Box::new(pv(*d)),
        ),
        Pattern::OpN(s, args) => PatternV::OpN(s@, pvs(args@)),
        Pattern::Ellipsis => PatternV::Ellipsis,
    }
}

/// The values of a sequence of patterns.
pub open spec fn pvs(s: Seq<Pattern>) -> Seq<PatternV>
    decreases s,
{
    if s.len() == 0 {
        Seq::empty()
    } else {
        pvs(s.subrange(0, s.len() - 1)).push(pv(s[s.len() - 1]))
    }
}

pub broadcast proof fn lemma_pvs(s: Seq<Pattern>)
    ensures
        #[trigger] pvs(s).len() == s.len(),
        forall|i: int| 0 <= i < s.len() ==> #[trigger] pvs(s)[i] == pv(s[i]),
    decreases s.len(),
{
    if s.len() > 0 {
        lemma_pvs(s.subrange(0, s.len() - 1));
    }
}

impl View for Pattern {
    type V = PatternV;

    open spec fn view(&self) -> PatternV {
        pv(*self)
    }
}

impl Pattern {
    /// The equality that patterns have: leaf patterns compare by value,
    /// patterns with sub-patterns never compare equal.
    pub open spec fn same_leaf(self, other: Pattern) -> bool {
        match (self, other) {
            (Pattern::PatAny, Pattern::PatAny) => true,
            (Pattern::Null, Pattern::Null) => true,
            (Pattern::Ellipsis, Pattern::Ellipsis) => true,
            (Pattern::Int(a), Pattern::Int(b)) => a == b,
            (Pattern::Str(a), Pattern::Str(b)) => a@ == b@,
            (Pattern::Op(a), Pattern::Op(b)) => a@ == b@,
            (Pattern::Capture(a), Pattern::Capture(b)) => a@ == b@,
            _ => false,
        }
    }
}

impl PartialEq for Pattern {
    fn eq(&self, other: &Self) -> (r: bool) {
        match (self, other) {
            (Pattern::PatAny, Pattern::PatAny) => true,
            (Pattern::Null, Pattern::Null) => true,
            (Pattern::Ellipsis, Pattern::Ellipsis) => true,
            (Pattern::Int(a), Pattern::Int(b)) => *a == *b,
            (Pattern::Str(a), Pattern::Str(b)) => *a == *b,
            (Pattern::Op(a), Pattern::Op(b)) => *a == *b,
            (Pattern::Capture(a), Pattern::Capture(b)) => *a == *b,
            _ => false,
        }
    }
}

impl vstd::std_specs::cmp::PartialEqSpecImpl for Pattern {
    open spec fn obeys_eq_spec() -> bool {
        true
    }

    open spec fn eq_spec(&self, other: &Pattern) -> bool {
        self.same_leaf(*other)
    }
}

/// Union of two optional binding maps, the right one winning.
pub open spec fn merge(a: Map<Seq<char>, ExpV>, b: Map<Seq<char>, ExpV>) -> Map<Seq<char>, ExpV> {
    a.union_prefer_right(b)
}

/// The result of matching an expression against a pattern: `None` when it
/// does not match, else the captured subexpressions.
pub open spec fn match_spec(e: ExpV, p: PatternV) -> Option<Map<Seq<char>, ExpV>>
    decreases p, 0int,
{
    let empty = Map::<Seq<char>, ExpV>::empty();
    match p {
        PatternV::PatAny => Some(empty),
        PatternV::Int(m) => if e == ExpV::Int(m) {
            Some(empty)
        } else {
            None
        },
        PatternV::Str(m) => if e == ExpV::Str(m) {
            Some(empty)
        } else {
            None
        },
        PatternV::Null => if e == ExpV::Null {
            Some(empty)
        } else {
            None
        },
        PatternV::Capture(name) => Some(empty.insert(name, e)),
        PatternV::CaptureTyped(name, t) => if t.matches_spec(e) {
            Some(empty.insert(name, e))
        } else {
            None
        },
        PatternV::Op(po) => if e == ExpV::Op(po) {
            Some(empty)
        } else {
            None
        },
        PatternV::Op1(po, pa) => match e {
            ExpV::Op1(op, a) => if op == po {
                match_spec(*a, *pa)
            } else {
                None
            },
            _ => None,
        },
        PatternV::Op2(po, pa, pb) => match e {
            ExpV::Op2(op, a, b) => if op == po {
                match (match_spec(*a, *pa), match_spec(*b, *pb)) {
                    (Some(r1), Some(r2)) => Some(merge(r1, r2)),
                    _ => None,
                }
            } else {
                None
            },
            _ => None,
        },
        PatternV::Op3(po, pa, pb, pc) => match e {
            ExpV::Op3(op, a, b, c) => if op == po {
                match (match_spec(*a, *pa), match_spec(*b, *pb), match_spec(*c, *pc)) {
                    (Some(r1), Some(r2), Some(r3)) => Some(merge(merge(r1, r2), r3)),
                    _ => None,
                }
            } else {
                None
            },
            _ => None,
        },
        PatternV::Op4(po, pa, pb, pc, pd) => match e {
            ExpV::Op4(op, a, b, c, d) => if op == po {
                match (
                    match_spec(*a, *pa),
                    match_spec(*b, *pb),
                    match_spec(*c, *pc),
                    match_spec(*d, *pd),
                ) {
                    (Some(r1), Some(r2), Some(r3), Some(r4)) => Some(
                        merge(merge(merge(r1, r2), r3), r4),
                    ),
                    _ => None,
                }
            } else {
                None
            },
            _ => None,
        },
        PatternV::OpN(po, pargs) => match e {
            ExpV::OpN(op, args) => if op == po {
                match_seq_spec(args, pargs)
            } else {
                None
            },
            _ => None,
        },
        PatternV::Ellipsis => None,
    }
}

/// The index of the first ellipsis in a list of patterns, or its length.
pub open spec fn first_ellipsis(ps: Seq<PatternV>) -> int
    decreases ps.len(),
{
    if ps.len() == 0 {
        0
    } else if ps[0] is Ellipsis {
        0
    } else {
        1 + first_ellipsis(ps.drop_first())
    }
}

/// Matching of a list of expressions against a list of patterns, where one
/// ellipsis stands for any run of elements.
pub open spec fn match_seq_spec(es: Seq<ExpV>, ps: Seq<PatternV>) -> Option<
    Map<Seq<char>, ExpV>,
>
    decreases ps, 1int,
{
    let k = first_ellipsis(ps);
    if 0 <= k < ps.len() {
        let prefix = ps.subrange(0, k);
        let suffix = ps.subrange(k + 1, ps.len() as int);
        if es.len() < prefix.len() + suffix.len() {
            None
        } else {
            match (
                match_seq_spec(es.subrange(0, prefix.len() as int), prefix),
                match_seq_spec(es.subrange(es.len() - suffix.len(), es.len() as int), suffix),
            ) {
                (Some(r1), Some(r2)) => Some(merge(r1, r2)),
                _ => None,
            }
        }
    } else if es.len() != ps.len() {
        None
    } else {
        match_pairs_spec(es, ps)
    }
}

/// Element-wise matching of two lists of equal length.
pub open spec fn match_pairs_spec(es: Seq<ExpV>, ps: Seq<PatternV>) -> Option<
    Map<Seq<char>, ExpV>,
>
    decreases ps, 0int,
{
    if ps.len() == 0 || es.len() != ps.len() {
        Some(Map::empty())
    } else {
        match (
            match_pairs_spec(es.subrange(0, es.len() - 1), ps.subrange(0, ps.len() - 1)),
            match_spec(es[es.len() - 1], ps[ps.len() - 1]),
        ) {
            (Some(r1), Some(r2)) => Some(merge(r1, r2)),
            _ => None,
        }
    }
}

proof fn lemma_pvs_subrange(s: Seq<Pattern>, i: int, j: int)
    requires
        0 <= i <= j <= s.len(),
    ensures
        pvs(s.subrange(i, j)) == pvs(s).subrange(i, j),
{
    lemma_pvs(s);
    lemma_pvs(s.subrange(i, j));
    assert(pvs(s.subrange(i, j)) =~= pvs(s).subrange(i, j));
}

proof fn lemma_evs_subrange(s: Seq<Exp>, i: int, j: int)
    requires
        0 <= i <= j <= s.len(),
    ensures
        evs(s.subrange(i, j)) == evs(s).subrange(i, j),
{
    lemma_evs(s);
    lemma_evs(s.subrange(i, j));
    assert(evs(s.subrange(i, j)) =~= evs(s).subrange(i, j));
}

proof fn lemma_first_ellipsis(ps: Seq<PatternV>, k: int)
    requires
        0 <= k <= ps.len(),
        forall|j: int| 0 <= j < k ==> !(#[trigger] ps[j] is Ellipsis),
        k < ps.len() ==> ps[k] is Ellipsis,
    ensures
        first_ellipsis(ps) == k,
    decreases ps.len(),
{
    if ps.len() > 0 && k > 0 {
        assert forall|j: int| 0 <= j < k - 1 implies !(#[trigger] ps.drop_first()[j] is Ellipsis) by {
            assert(ps.drop_first()[j] == ps[j + 1]);
        }
        lemma_first_ellipsis(ps.drop_first(), k - 1);
    }
}

proof fn lemma_pairs_none(es: Seq<ExpV>, ps: Seq<PatternV>, i: int, n: int)
    requires
        es.len() == ps.len(),
        0 <= i <= n <= ps.len(),
        match_pairs_spec(es.subrange(0, i), ps.subrange(0, i)) is None,
    ensures
        match_pairs_spec(es.subrange(0, n), ps.subrange(0, n)) is None,
    decreases n - i,
{
    if n > i {
        lemma_pairs_none(es, ps, i, n - 1);
        assert(es.subrange(0, n).subrange(0, n - 1) =~= es.subrange(0, n - 1));
        assert(ps.subrange(0, n).subrange(0, n - 1) =~= ps.subrange(0, n - 1));
    }
}

// ---------------------------------------------------------------------------
// Laws of matching

/// The pattern that matches an expression built from constants and
/// operators exactly, with no capture; none for other expressions.
pub open spec fn exact_pattern(e: ExpV) -> Option<PatternV>
    decreases e,
{
    match e {
        ExpV::Int(n) => Some(PatternV::Int(n)),
        ExpV::Str(s) => Some(PatternV::Str(s)),
        ExpV::Null => Some(PatternV::Null),
        ExpV::Op(op) => Some(PatternV::Op(op)),
        ExpV::Op1(op, a) => match exact_pattern(*a) {
            Some(pa) => Some(PatternV::Op1(op, Box::new(pa))),
            None => None,
        },
        ExpV::Op2(op, a, b) => match (exact_pattern(*a), exact_pattern(*b)) {
            (Some(pa), Some(pb)) => Some(PatternV::Op2(op, Box::new(pa), Box::new(pb))),
            _ => None,
        },
        ExpV::Op3(op, a, b, c) => match (exact_pattern(*a), exact_pattern(*b), exact_pattern(*c)) {
            (Some(pa), Some(pb), Some(pc)) => Some(
                PatternV::Op3(op, Box::new(pa), Box::new(pb), Box::new(pc)),
            ),
            _ => None,
        },
        ExpV::Op4(op, a, b, c, d) => match (
            exact_pattern(*a),
            exact_pattern(*b),
            exact_pattern(*c),
            exact_pattern(*d),
        ) {
            (Some(pa), Some(pb), Some(pc), Some(pd)) => Some(
                PatternV::Op4(op, Box::new(pa), Box::new(pb), Box::new(pc), Box::new(pd)),
            ),
            _ => None,
        },
        ExpV::OpN(op, args) => match exact_patterns(args) {
            Some(ps) => Some(PatternV::OpN(op, ps)),
            None => None,
        },
        _ => None,
    }
}

/// The exact patterns of a list of expressions, if each has one.
pub open spec fn exact_patterns(s: Seq<ExpV>) -> Option<Seq<PatternV>>
    decreases s,
{
    if s.len() == 0 {
        Some(Seq::empty())
    } else {
        match (exact_patterns(s.subrange(0, s.len() - 1)), exact_pattern(s[s.len() - 1])) {
            (Some(ps), Some(p)) => Some(ps.push(p)),
            _ => None,
        }
    }
}

/// The wildcard matches every expression and captures nothing.
pub proof fn lemma_wildcard_matches_all(e: ExpV)
    ensures
        match_spec(e, PatternV::PatAny) == Some(Map::<Seq<char>, ExpV>::empty()),
{
}

/// A capture matches every expression and binds its name to it.
pub proof fn lemma_capture_binds(e: ExpV, name: Seq<char>)
    ensures
        match_spec(e, PatternV::Capture(name)) == Some(
            Map::<Seq<char>, ExpV>::empty().insert(name, e),
        ),
{
}

/// An expression built from constants and operators matches, with no
/// capture, the pattern that spells it out.
pub proof fn lemma_exact_pattern_matches(e: ExpV)
    requires
        exact_pattern(e) is Some,
    ensures
        match_spec(e, exact_pattern(e)->0) == Some(Map::<Seq<char>, ExpV>::empty()),
    decreases e,
{
    let empty = Map::<Seq<char>, ExpV>::empty();
    assert(merge(empty, empty) =~= empty);
    match e {
        ExpV::Op1(op, a) => {
            lemma_exact_pattern_matches(*a);
        },
        ExpV::Op2(op, a, b) => {
            lemma_exact_pattern_matches(*a);
            lemma_exact_pattern_matches(*b);
        },
        ExpV::Op3(op, a, b, c) => {
            lemma_exact_pattern_matches(*a);
            lemma_exact_pattern_matches(*b);
            lemma_exact_pattern_matches(*c);
        },
        ExpV::Op4(op, a, b, c, d) => {
            lemma_exact_pattern_matches(*a);
            lemma_exact_pattern_matches(*b);
            lemma_exact_pattern_matches(*c);
            lemma_exact_pattern_matches(*d);
        },
        ExpV::OpN(op, args) => {
            lemma_exact_patterns_match(args);
            let ps = exact_patterns(args)->0;
            lemma_first_ellipsis(ps, ps.len() as int);
            assert(match_seq_spec(args, ps) == match_pairs_spec(args, ps));
            assert(match_spec(e, exact_pattern(e)->0) == Some(empty));
        },
        _ => {
            assert(match_spec(e, exact_pattern(e)->0) == Some(empty));
        },
    }
}

proof fn lemma_exact_patterns_match(s: Seq<ExpV>)
    requires
        exact_patterns(s) is Some,
    ensures
        exact_patterns(s)->0.len() == s.len(),
        forall|j: int|
            0 <= j < s.len() ==> !(#[trigger] exact_patterns(s)->0[j] is Ellipsis),
        match_pairs_spec(s, exact_patterns(s)->0) == Some(Map::<Seq<char>, ExpV>::empty()),
    decreases s,
{
    if s.len() > 0 {
        let init = s.subrange(0, s.len() - 1);
        lemma_exact_patterns_match(init);
        lemma_exact_pattern_matches(s[s.len() - 1]);
        let ps = exact_patterns(s)->0;
        let ps0 = exact_patterns(init)->0;
        assert(ps.subrange(0, ps.len() - 1) =~= ps0);
        let empty = Map::<Seq<char>, ExpV>::empty();
        assert(merge(empty, empty) =~= empty);
        assert forall|j: int| 0 <= j < s.len() implies !(#[trigger] ps[j] is Ellipsis) by {
            if j < s.len() - 1 {
                assert(ps[j] == ps0[j]);
            }
        }
    }
}

proof fn lemma_pairs_some(es: Seq<ExpV>, ps: Seq<PatternV>)
    requires
        es.len() == ps.len(),
    ensures
        match_pairs_spec(es, ps) is Some <==> forall|i: int|
            0 <= i < es.len() ==> #[trigger] match_spec(es[i], ps[i]) is Some,
    decreases ps.len(),
{
    if ps.len() > 0 {
        let es0 = es.subrange(0, es.len() - 1);
        let ps0 = ps.subrange(0, ps.len() - 1);
        lemma_pairs_some(es0, ps0);
        if match_pairs_spec(es, ps) is Some {
            assert forall|i: int| 0 <= i < es.len() implies #[trigger] match_spec(es[i], ps[i]) is Some by {
                if i < es.len() - 1 {
                    assert(es0[i] == es[i] && ps0[i] == ps[i]);
                }
            }
        }
        if forall|i: int| 0 <= i < es.len() ==> #[trigger] match_spec(es[i], ps[i]) is Some {
            assert forall|i: int| 0 <= i < es0.len() implies #[trigger] match_spec(es0[i], ps0[i]) is Some by {
                assert(es0[i] == es[i] && ps0[i] == ps[i]);
            }
            assert(match_spec(es[es.len() - 1], ps[ps.len() - 1]) is Some);
        }
    }
}

/// A list of patterns without an ellipsis matches a list of expressions of
/// its length exactly when each pattern matches its expression; with an
/// ellipsis, when the list is long enough for the patterns around it and
/// those before it match the first expressions and those after it the last.
pub proof fn lemma_match_list(es: Seq<ExpV>, ps: Seq<PatternV>)
    ensures
        0 <= first_ellipsis(ps) <= ps.len(),
        first_ellipsis(ps) == ps.len() ==> (match_seq_spec(es, ps) is Some <==> es.len() == ps.len()
            && forall|i: int| 0 <= i < es.len() ==> #[trigger] match_spec(es[i], ps[i]) is Some),
        first_ellipsis(ps) < ps.len() ==> {
            let k = first_ellipsis(ps);
            match_seq_spec(es, ps) is Some <==> es.len() + 1 >= ps.len() && match_seq_spec(
                es.subrange(0, k),
                ps.subrange(0, k),
            ) is Some && match_seq_spec(
                es.subrange(es.len() + k + 1 - ps.len(), es.len() as int),
                ps.subrange(k + 1, ps.len() as int),
            ) is Some
        },
{
    lemma_first_ellipsis_range(ps);
    if first_ellipsis(ps) == ps.len() && es.len() == ps.len() {
        lemma_pairs_some(es, ps);
    }
}

proof fn lemma_first_ellipsis_range(ps: Seq<PatternV>)
    ensures
        0 <= first_ellipsis(ps) <= ps.len(),
    decreases ps.len(),
{
    if ps.len() > 0 {
        lemma_first_ellipsis_range(ps.drop_first());
    }
}

/// An operator pattern with two operands matches exactly when the operators
/// agree and both operand patterns match.
pub proof fn lemma_op2_needs_both(
    op: Seq<char>,
    a: ExpV,
    b: ExpV,
    po: Seq<char>,
    pa: PatternV,
    pb: PatternV,
)
    ensures
        match_spec(ExpV::op2(op, a, b), PatternV::Op2(po, Box::new(pa), Box::new(pb))) is Some <==> (op
            == po && match_spec(a, pa) is Some && match_spec(b, pb) is Some),
{
}

/// After a binding of `name` to `value`, looking `name` up finds `value`,
/// and every other name finds what it found before.
pub proof fn lemma_get_after_bind(
    before: Map<Seq<char>, ExpV>,
    name: Seq<char>,
    value: ExpV,
    other: Seq<char>,
)
    ensures
        before.insert(name, value).contains_key(name),
        before.insert(name, value)[name] == value,
        other != name ==> before.insert(name, value).contains_key(other) == before.contains_key(
            other,
        ),
        other != name && before.contains_key(other) ==> before.insert(name, value)[other]
            == before[other],
{
}

/// Whether a pattern is the ellipsis.
fn is_ellipsis(p: &Pattern) -> (r: bool)
    ensures
        r == (p@ is Ellipsis),
{
    match p {
        Pattern::Ellipsis => true,
        _ => false,
    }
}

fn single(name: &String, e: &Exp) -> (r: MatchResult)
    ensures
        r@ == Map::<Seq<char>, ExpV>::empty().insert(name@, e@),
{
    let mut r = MatchResult::new();
    r.bind(name.as_str(), copy_exp(e));
    r
}

/// Attempt to match an expression against a pattern
pub fn match_exp(expr: &Exp, pattern: &Pattern) -> (r: Option<MatchResult>)
    ensures
        match r {
            Some(m) => match_spec(expr@, pattern@) == Some(m@),
            None => match_spec(expr@, pattern@) is None,
        },
    decreases pattern@, 0int,
{
    match pattern {
        Pattern::PatAny => Some(MatchResult::new()),
        Pattern::Int(m) => match expr {
            Exp::Int(n) => if *n == *m {
                Some(MatchResult::new())
            } else {
                None
            },
            _ => None,
        },
        Pattern::Str(m) => match expr {
            Exp::Str(t) => if *t == *m {
                Some(MatchResult::new())
            } else {
                None
            },
            _ => None,
        },
        Pattern::Null => match expr {
            Exp::Null => Some(MatchResult::new()),
            _ => None,
        },
        Pattern::Capture(name) => Some(single(name, expr)),
        Pattern::CaptureTyped(name, t) => if t.matches(expr) {
            Some(single(name, expr))
        } else {
            None
        },
        Pattern::Op(p) => match expr {
            Exp::Op(op) => if *op == *p {
                Some(MatchResult::new())
            } else {
                None
            },
            _ => None,
        },
        Pattern::Op1(p, pa) => match expr {
            Exp::Op1(op, a) => if *op == *p {
                match_exp(a, pa)
            } else {
                None
            },
            _ => None,
        },
        Pattern::Op2(p, pa, pb) => match expr {
            Exp::Op2(op, a, b) => if *op == *p {
                match match_exp(a, pa) {
                    Some(mut r1) => {
                        if let Some(r2) = match_exp(b, pb) {
                            r1.extend(r2);
                            return Some(r1);
                        }
                    },
                    None => {},
                }
                None
            } else {
                None
            },
            _ => None,
        },
        Pattern::Op3(p, pa, pb, pc) => match expr {
            Exp::Op3(op, a, b, c) => {
                if *op == *p {
                    match match_exp(a, pa) {
                        Some(mut r1) => {
                            if let Some(r2) = match_exp(b, pb) {
                                if let Some(r3) = match_exp(c, pc) {
                                    r1.extend(r2);
                                    r1.extend(r3);
                                    return Some(r1);
                                }
                            }
                        },
                        None => {},
                    }
                }
                None
            },
            _ => None,
        },
        Pattern::Op4(p, pa, pb, pc, pd) => match expr {
            Exp::Op4(op, a, b, c, d) => {
                if *op == *p {
                    match match_exp(a, pa) {
                        Some(mut r1) => {
                            if let Some(r2) = match_exp(b, pb) {
                                if let Some(r3) = match_exp(c, pc) {
                                    if let Some(r4) = match_exp(d, pd) {
                                        r1.extend(r2);
                                        r1.extend(r3);
                                        r1.extend(r4);
                                        return Some(r1);
                                    }
                                }
                            }
                        },
                        None => {},
                    }
                }
                None
            },
            _ => None,
        },
        Pattern::OpN(p, pargs) => match expr {
            Exp::OpN(op, args) => if *op == *p {
                proof {
                    lemma_pvs(pargs@);
                }
                match_patterns(args.as_slice(), pargs.as_slice())
            } else {
                None
            },
            _ => None,
        },
        Pattern::Ellipsis => None,
    }
}

/// Match a list of expressions against a list of patterns
pub fn match_patterns(exprs: &[Exp], patterns: &[Pattern]) -> (r: Option<MatchResult>)
    ensures
        match r {
            Some(m) => match_seq_spec(evs(exprs@), pvs(patterns@)) == Some(m@),
            None => match_seq_spec(evs(exprs@), pvs(patterns@)) is None,
        },
    decreases pvs(patterns@), 1int,
{
    proof {
        lemma_pvs(patterns@);
        lemma_evs(exprs@);
    }
    let ghost es = evs(exprs@);
    let ghost ps = pvs(patterns@);
    let mut k: usize = 0;
    while k < patterns.len() && !is_ellipsis(&patterns[k])
        invariant
            k <= patterns@.len(),
            ps == pvs(patterns@),
            ps.len() == patterns@.len(),
            forall|i: int| 0 <= i < patterns@.len() ==> #[trigger] ps[i] == pv(patterns@[i]),
            forall|j: int| 0 <= j < k ==> !(#[trigger] ps[j] is Ellipsis),
        decreases patterns.len() - k,
    {
        k += 1;
    }
    proof {
        lemma_first_ellipsis(ps, k as int);
    }
    if k < patterns.len() {
        let plen = k;
        let slen = patterns.len() - k - 1;
        if exprs.len() < plen + slen {
            return None;
        }
        let elen = exprs.len();
        proof {
            lemma_pvs_subrange(patterns@, 0, k as int);
            lemma_pvs_subrange(patterns@, k + 1, patterns@.len() as int);
            lemma_evs_subrange(exprs@, 0, plen as int);
            lemma_evs_subrange(exprs@, elen - slen, elen as int);
            assert(decreases_to!(ps => ps.subrange(0, k as int)));
            assert(decreases_to!(ps => ps.subrange(k + 1, ps.len() as int)));
        }
        let prefix_result = match match_patterns(&exprs[0..plen], &patterns[0..plen]) {
            Some(r) => r,
            None => return None,
        };
        let suffix_result = match match_patterns(
            &exprs[elen - slen..elen],
            &patterns[k + 1..patterns.len()],
        ) {
            Some(r) => r,
            None => return None,
        };
        let mut result = prefix_result;
        result.extend(suffix_result);
        return Some(result);
    }
    if exprs.len() != patterns.len() {
        return None;
    }
    let mut result = MatchResult::new();
    let mut i: usize = 0;
    while i < exprs.len()
        invariant
            i <= exprs@.len(),
            exprs@.len() == patterns@.len(),
            es == evs(exprs@),
            ps == pvs(patterns@),
            es.len() == exprs@.len(),
            ps.len() == patterns@.len(),
            forall|j: int| 0 <= j < patterns@.len() ==> #[trigger] ps[j] == pv(patterns@[j]),
            forall|j: int| 0 <= j < exprs@.len() ==> #[trigger] es[j] == ev(exprs@[j]),
            match_pairs_spec(es.subrange(0, i as int), ps.subrange(0, i as int)) == Some(result@),
            first_ellipsis(ps) == ps.len(),
        decreases exprs.len() - i,
    {
        proof {
            assert(decreases_to!(ps => ps[i as int]));
            assert(es.subrange(0, i + 1).subrange(0, i as int) =~= es.subrange(0, i as int));
            assert(ps.subrange(0, i + 1).subrange(0, i as int) =~= ps.subrange(0, i as int));
        }
        match match_exp(&exprs[i], &patterns[i]) {
            Some(r) => {
                result.extend(r);
            },
            None => {
                proof {
                    let es1 = es.subrange(0, i + 1);
                    let ps1 = ps.subrange(0, i + 1);
                    assert(es1[es1.len() - 1] == es[i as int]);
                    assert(ps1[ps1.len() - 1] == ps[i as int]);
                    assert(es1.subrange(0, es1.len() - 1) =~= es.subrange(0, i as int));
                    assert(ps1.subrange(0, ps1.len() - 1) =~= ps.subrange(0, i as int));
                    assert(match_spec(es[i as int], ps[i as int]) is None);
                    assert(match_pairs_spec(es1, ps1) is None);
                    lemma_pairs_none(es, ps, i + 1, es.len() as int);
                    assert(es.subrange(0, es.len() as int) =~= es);
                    assert(ps.subrange(0, ps.len() as int) =~= ps);
                }
                return None;
            },
        }
        i += 1;
    }
    assert(es.subrange(0, es.len() as int) =~= es);
    assert(ps.subrange(0, ps.len() as int) =~= ps);
    Some(result)
}

// Convenience patterns

/// A pattern that captures under `name`.
pub fn var(name: &str) -> (r: Pattern)
    ensures
        r@ == PatternV::Capture(name@),
{
    Pattern::Capture(String::from_str(name))
}

/// A pattern for an operator with no operands.
pub fn op(name: &str) -> (r: Pattern)
    ensures
        r@ == PatternV::Op(name@),
{
    Pattern::Op(String::from_str(name))
}

/// A pattern for an integer constant.
pub fn num(n: u128) -> (r: Pattern)
    ensures
        r@ == PatternV::Int(n),
{
    Pattern::Int(n)
}

/// A pattern that matches anything.
pub fn wild() -> (r: Pattern)
    ensures
        r@ == PatternV::PatAny,
{
    Pattern::PatAny
}

/// The ellipsis pattern.
pub fn ellipsis() -> (r: Pattern)
    ensures
        r@ == PatternV::Ellipsis,
{
    Pattern::Ellipsis
}

} // verus!
