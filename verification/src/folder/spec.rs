//! The mathematical meaning of folding.

use vstd::prelude::*;
use crate::evm_core::types::{Exp, ExpV, evs};
use crate::whiles::prefix_opt;

verus! {

/// The values of a list of paths.
pub open spec fn evss(p: Seq<Vec<Exp>>) -> Seq<Seq<ExpV>> {
    p.map_values(|v: Vec<Exp>| evs(v@))
}

/// Opcodes after which execution does not go on.
pub open spec fn is_terminating(op: Seq<char>) -> bool {
    ||| op == "return"@
    ||| op == "stop"@
    ||| op == "selfdestruct"@
    ||| op == "invalid"@
    ||| op == "assert_fail"@
    ||| op == "revert"@
    ||| op == "continue"@
    ||| op == "undefined"@
}

// ---------------------------------------------------------------------------
// Rewriting every node

/// `or` and `and` of two operands become the lists `for` and `fand`.
pub open spec fn make_fands_spec(e: ExpV) -> ExpV {
    match e {
        ExpV::Op2(op, a, b) => if op == "or"@ {
            ExpV::OpN("for"@, seq![*a, *b])
        } else if op == "and"@ {
            ExpV::OpN("fand"@, seq![*a, *b])
        } else {
            e
        },
        _ => e,
    }
}

/// Two-element lists `for` and `fand` become `or` and `and` again.
pub open spec fn unmake_fands_spec(e: ExpV) -> ExpV {
    match e {
        ExpV::OpN(op, args) => if op == "for"@ && args.len() == 2 {
            ExpV::op2("or"@, args[0], args[1])
        } else if op == "fand"@ && args.len() == 2 {
            ExpV::op2("and"@, args[0], args[1])
        } else {
            e
        },
        _ => e,
    }
}

/// The rewriting of one node: [`make_fands_spec`] or [`unmake_fands_spec`].
pub open spec fn rewrite_node(e: ExpV, make: bool) -> ExpV {
    if make {
        make_fands_spec(e)
    } else {
        unmake_fands_spec(e)
    }
}

/// An expression with every node rewritten, children first.
pub open spec fn replace_f_spec(e: ExpV, make: bool) -> ExpV
    decreases e,
{
    rewrite_node(
        match e {
            ExpV::Op1(op, a) => ExpV::Op1(op, Box::new(replace_f_spec(*a, make))),
            ExpV::Op2(op, a, b) => ExpV::Op2(
                op,
                Box::new(replace_f_spec(*a, make)),
                Box::new(replace_f_spec(*b, make)),
            ),
            ExpV::Op3(op, a, b, c) => ExpV::Op3(
                op,
                Box::new(replace_f_spec(*a, make)),
                Box::new(replace_f_spec(*b, make)),
                Box::new(replace_f_spec(*c, make)),
            ),
            ExpV::Op4(op, a, b, c, d) => ExpV::Op4(
                op,
                Box::new(replace_f_spec(*a, make)),
                Box::new(replace_f_spec(*b, make)),
                Box::new(replace_f_spec(*c, make)),
                Box::new(replace_f_spec(*d, make)),
            ),
            ExpV::OpN(op, args) => ExpV::OpN(op, replace_f_seq(args, make)),
            ExpV::If(c, t, f) => ExpV::If(
                Box::new(replace_f_spec(*c, make)),
                replace_f_seq(t, make),
                replace_f_seq(f, make),
            ),
            ExpV::While(c, b) => ExpV::While(Box::new(replace_f_spec(*c, make)), replace_f_seq(b, make)),
            ExpV::Loop(l, b, j, vs) => ExpV::Loop(
                Box::new(replace_f_spec(*l, make)),
                replace_f_seq(b, make),
                j,
                vs,
            ),
            ExpV::Label(t, vs) => ExpV::Label(Box::new(replace_f_spec(*t, make)), vs),
            ExpV::Goto(t, vs) => ExpV::Goto(Box::new(replace_f_spec(*t, make)), vs),
            _ => e,
        },
        make,
    )
}

/// Each expression of a sequence rewritten.
pub open spec fn replace_f_seq(s: Seq<ExpV>, make: bool) -> Seq<ExpV>
    decreases s,
{
    if s.len() == 0 {
        Seq::empty()
    } else {
        replace_f_seq(s.subrange(0, s.len() - 1), make).push(replace_f_spec(s[s.len() - 1], make))
    }
}

/// Whether no node of an expression is already a two-element `for` or
/// `fand` list, the shape that `or` and `and` are turned into.
pub open spec fn free_of_pair_lists(e: ExpV) -> bool
    decreases e,
{
    match e {
        ExpV::Op1(_, a) => free_of_pair_lists(*a),
        ExpV::Op2(_, a, b) => free_of_pair_lists(*a) && free_of_pair_lists(*b),
        ExpV::Op3(_, a, b, c) => free_of_pair_lists(*a) && free_of_pair_lists(*b)
            && free_of_pair_lists(*c),
        ExpV::Op4(_, a, b, c, d) => free_of_pair_lists(*a) && free_of_pair_lists(*b)
            && free_of_pair_lists(*c) && free_of_pair_lists(*d),
        ExpV::OpN(op, args) => !((op == "for"@ || op == "fand"@) && args.len() == 2)
            && free_of_pair_lists_seq(args),
        ExpV::If(c, t, f) => free_of_pair_lists(*c) && free_of_pair_lists_seq(t)
            && free_of_pair_lists_seq(f),
        ExpV::While(c, b) => free_of_pair_lists(*c) && free_of_pair_lists_seq(b),
        ExpV::Loop(l, b, _, _) => free_of_pair_lists(*l) && free_of_pair_lists_seq(b),
        ExpV::Label(t, _) => free_of_pair_lists(*t),
        ExpV::Goto(t, _) => free_of_pair_lists(*t),
        _ => true,
    }
}

/// Whether no expression of a sequence holds a two-element `for` or `fand` list.
pub open spec fn free_of_pair_lists_seq(s: Seq<ExpV>) -> bool
    decreases s,
{
    if s.len() == 0 {
        true
    } else {
        free_of_pair_lists_seq(s.subrange(0, s.len() - 1)) && free_of_pair_lists(s[s.len() - 1])
    }
}

/// Turning `or` and `and` into lists and the lists back gives the
/// expression again, when it held no such list to begin with.
pub proof fn lemma_fands_round_trip(e: ExpV)
    requires
        free_of_pair_lists(e),
    ensures
        replace_f_spec(replace_f_spec(e, true), false) == e,
    decreases e,
{
    match e {
        ExpV::Op1(_, a) => {
            lemma_fands_round_trip(*a);
        },
        ExpV::Op2(op, a, b) => {
            lemma_fands_round_trip(*a);
            lemma_fands_round_trip(*b);
            let pair = seq![replace_f_spec(*a, true), replace_f_spec(*b, true)];
            assert(replace_f_seq(pair, false) =~= seq![*a, *b]) by {
                reveal_with_fuel(replace_f_seq, 3);
                assert(pair.subrange(0, 1) =~= seq![replace_f_spec(*a, true)]);
                assert(pair.subrange(0, 1).subrange(0, 0) =~= Seq::<ExpV>::empty());
            }
            reveal_strlit("or");
            reveal_strlit("and");
            reveal_strlit("for");
            reveal_strlit("fand");
            assert("and"@ != "or"@) by {
                assert("and"@.len() != "or"@.len());
            }
            assert("fand"@ != "for"@) by {
                assert("fand"@.len() != "for"@.len());
            }
            let made = replace_f_spec(e, true);
            if op == "or"@ {
                assert(made == ExpV::OpN("for"@, pair));
            } else if op == "and"@ {
                assert(made == ExpV::OpN("fand"@, pair));
            } else {
                assert(made == ExpV::Op2(
                    op,
                    Box::new(replace_f_spec(*a, true)),
                    Box::new(replace_f_spec(*b, true)),
                ));
            }
        },
        ExpV::Op3(_, a, b, c) => {
            lemma_fands_round_trip(*a);
            lemma_fands_round_trip(*b);
            lemma_fands_round_trip(*c);
        },
        ExpV::Op4(_, a, b, c, d) => {
            lemma_fands_round_trip(*a);
            lemma_fands_round_trip(*b);
            lemma_fands_round_trip(*c);
            lemma_fands_round_trip(*d);
        },
        ExpV::OpN(_, args) => {
            lemma_fands_round_trip_seq(args);
            lemma_replace_f_seq_len(args, true);
        },
        ExpV::If(c, t, f) => {
            lemma_fands_round_trip(*c);
            lemma_fands_round_trip_seq(t);
            lemma_fands_round_trip_seq(f);
        },
        ExpV::While(c, b) => {
            lemma_fands_round_trip(*c);
            lemma_fands_round_trip_seq(b);
        },
        ExpV::Loop(l, b, _, _) => {
            lemma_fands_round_trip(*l);
            lemma_fands_round_trip_seq(b);
        },
        ExpV::Label(t, _) => {
            lemma_fands_round_trip(*t);
        },
        ExpV::Goto(t, _) => {
            lemma_fands_round_trip(*t);
        },
        _ => {},
    }
}

/// [`lemma_fands_round_trip`] for each expression of a sequence.
pub proof fn lemma_fands_round_trip_seq(s: Seq<ExpV>)
    requires
        free_of_pair_lists_seq(s),
    ensures
        replace_f_seq(replace_f_seq(s, true), false) == s,
    decreases s,
{
    if s.len() > 0 {
        let init = s.subrange(0, s.len() - 1);
        lemma_fands_round_trip_seq(init);
        lemma_fands_round_trip(s[s.len() - 1]);
        let m = replace_f_seq(s, true);
        lemma_replace_f_seq_len(init, true);
        assert(m.subrange(0, m.len() - 1) =~= replace_f_seq(init, true));
        assert(replace_f_seq(m, false) =~= s);
    }
}

proof fn lemma_replace_f_seq_len(s: Seq<ExpV>, make: bool)
    ensures
        replace_f_seq(s, make).len() == s.len(),
    decreases s.len(),
{
    if s.len() > 0 {
        lemma_replace_f_seq_len(s.subrange(0, s.len() - 1), make);
    }
}

// ---------------------------------------------------------------------------
// Paths

/// The branchless paths of a trace from line `i` on, after `path`: at the
/// first `if` the path splits in two, one taking the condition and the
/// paths of the `then` branch, the other its negation and the paths of the
/// `else` branch, and the lines after the `if` are left out; a loop records
/// its label and goes on with its body.
pub open spec fn paths_at(trace: Seq<ExpV>, i: nat, path: Seq<ExpV>) -> Seq<Seq<ExpV>>
    decreases trace, trace.len() - i,
{
    if i >= trace.len() {
        seq![path]
    } else {
        match trace[i as int] {
            ExpV::If(c, t, f) => paths_at(t, 0, path.push(*c)) + paths_at(
                f,
                0,
                path.push(ExpV::op1("iszero"@, *c)),
            ),
            ExpV::Loop(l, b, _, _) => paths_at(b, 0, path.push(ExpV::op2("LOOP"@, *l, ExpV::Null))),
            _ => paths_at(trace, i + 1, path.push(trace[i as int])),
        }
    }
}

/// The paths of a trace, after `or` and `and` have become lists.
pub open spec fn as_paths_spec(trace: Seq<ExpV>) -> Seq<Seq<ExpV>> {
    paths_at(replace_f_seq(trace, true), 0, Seq::empty())
}

/// The non-empty paths.
pub open spec fn non_empty(p: Seq<Seq<ExpV>>) -> Seq<Seq<ExpV>>
    decreases p.len(),
{
    if p.len() == 0 {
        Seq::empty()
    } else if p.last().len() > 0 {
        non_empty(p.drop_last()).push(p.last())
    } else {
        non_empty(p.drop_last())
    }
}

/// `x` put into a list sorted by decreasing length, after every path at
/// least as long.
pub open spec fn insert_by_len(sorted: Seq<Seq<ExpV>>, x: Seq<ExpV>) -> Seq<Seq<ExpV>>
    decreases sorted.len(),
{
    if sorted.len() == 0 {
        seq![x]
    } else if sorted.last().len() >= x.len() {
        sorted.push(x)
    } else {
        insert_by_len(sorted.drop_last(), x).push(sorted.last())
    }
}

/// Paths sorted by decreasing length, keeping the order of paths of equal length.
pub open spec fn sort_by_len(p: Seq<Seq<ExpV>>) -> Seq<Seq<ExpV>>
    decreases p.len(),
{
    if p.len() == 0 {
        p
    } else {
        insert_by_len(sort_by_len(p.drop_last()), p.last())
    }
}

/// The rests of the paths that start with `prefix`.
pub open spec fn with_prefix(paths: Seq<Seq<ExpV>>, prefix: Seq<ExpV>) -> Seq<Seq<ExpV>>
    decreases paths.len(),
{
    if paths.len() == 0 {
        Seq::empty()
    } else {
        let p = paths.last();
        let rest = with_prefix(paths.drop_last(), prefix);
        if p.len() >= prefix.len() && p.subrange(0, prefix.len() as int) == prefix {
            rest.push(p.subrange(prefix.len() as int, p.len() as int))
        } else {
            rest
        }
    }
}

/// The fronts of the paths that end with `suffix`.
pub open spec fn with_suffix(paths: Seq<Seq<ExpV>>, suffix: Seq<ExpV>) -> Seq<Seq<ExpV>>
    decreases paths.len(),
{
    if paths.len() == 0 {
        Seq::empty()
    } else {
        let p = paths.last();
        let rest = with_suffix(paths.drop_last(), suffix);
        if p.len() >= suffix.len() && p.subrange(p.len() - suffix.len(), p.len() as int) == suffix {
            rest.push(p.subrange(0, p.len() - suffix.len()))
        } else {
            rest
        }
    }
}

/// The rests of the paths that share the first path's first `offset` lines
/// (none for offset 0 or an offset past the first path).
pub open spec fn starting_with_spec(paths: Seq<Seq<ExpV>>, offset: nat) -> Seq<Seq<ExpV>> {
    if offset == 0 || paths.len() == 0 || offset > paths[0].len() {
        Seq::empty()
    } else {
        with_prefix(paths, paths[0].subrange(0, offset as int))
    }
}

/// The fronts of the paths that share the first path's last `offset` lines.
pub open spec fn ending_with_spec(paths: Seq<Seq<ExpV>>, offset: nat) -> Seq<Seq<ExpV>> {
    if offset == 0 || paths.len() == 0 || offset > paths[0].len() {
        Seq::empty()
    } else {
        with_suffix(paths, paths[0].subrange(paths[0].len() - offset, paths[0].len() as int))
    }
}

/// The length of the prefix that all paths share, searching from `idx`.
pub open spec fn begin_from(sorted: Seq<Seq<ExpV>>, idx: nat) -> nat
    decreases sorted[0].len() + 1 - idx,
{
    if sorted.len() > 0 && idx + 1 <= sorted[0].len() && starting_with_spec(sorted, idx + 1).len()
        == sorted.len() {
        begin_from(sorted, idx + 1)
    } else {
        idx
    }
}

/// The length of the suffix that all paths share, plus one, searching from `idx`.
pub open spec fn end_from(sorted: Seq<Seq<ExpV>>, idx: nat) -> nat
    decreases sorted[0].len() + 1 - idx,
{
    if sorted.len() > 0 && idx <= sorted[0].len() && ending_with_spec(sorted, idx).len()
        == sorted.len() {
        end_from(sorted, idx + 1)
    } else {
        idx
    }
}

/// The length of the prefix that all paths share.
pub open spec fn begin_offset_spec(sorted: Seq<Seq<ExpV>>) -> nat {
    begin_from(sorted, 0)
}

/// The length of the suffix that all paths share.
pub open spec fn end_offset_spec(sorted: Seq<Seq<ExpV>>) -> nat {
    let e = end_from(sorted, 1);
    if e >= 1 {
        (e - 1) as nat
    } else {
        0
    }
}

/// The first line of a path, or the empty expression.
pub open spec fn first_or_null(p: Seq<ExpV>) -> ExpV {
    if p.len() > 0 {
        p[0]
    } else {
        ExpV::Null
    }
}

/// Whether all paths start with the same line as the first.
pub open spec fn same_first(paths: Seq<Seq<ExpV>>) -> bool {
    forall|i: int| 1 <= i < paths.len() ==> first_or_null(#[trigger] paths[i]) == first_or_null(paths[0])
}

/// A path as an `and` list.
pub open spec fn and_of(p: Seq<ExpV>) -> ExpV {
    ExpV::OpN("and"@, p)
}

/// Alternatives of paths as an `or` of `and` lists; when all start with the
/// same line, that line is left out of each.
pub open spec fn make_or_spec(paths: Seq<Seq<ExpV>>) -> ExpV {
    if paths.len() == 0 {
        ExpV::Null
    } else if paths.len() == 1 {
        if paths[0].len() == 0 {
            ExpV::Null
        } else {
            and_of(paths[0])
        }
    } else if same_first(paths) {
        ExpV::OpN(
            "or"@,
            paths.map_values(
                |p: Seq<ExpV>|
                    if p.len() > 1 {
                        and_of(p.subrange(1, p.len() as int))
                    } else {
                        ExpV::Null
                    },
            ),
        )
    } else {
        ExpV::OpN("or"@, paths.map_values(|p: Seq<ExpV>| and_of(p)))
    }
}

/// The rests of the `or` variants that start with `prefix`; the collection
/// stops at the first variant that is not a list.
pub open spec fn collect_spec(variants: Seq<ExpV>, prefix: Seq<ExpV>) -> Seq<Seq<ExpV>>
    decreases variants.len(),
{
    if variants.len() == 0 {
        Seq::empty()
    } else {
        match variants[0] {
            ExpV::OpN(_, a) => {
                let rest = collect_spec(variants.drop_first(), prefix);
                if a.len() >= prefix.len() && a.subrange(0, prefix.len() as int) == prefix {
                    seq![a.subrange(prefix.len() as int, a.len() as int)] + rest
                } else {
                    rest
                }
            },
            _ => Seq::empty(),
        }
    }
}

/// `first` put in front of a folded path.
pub open spec fn and_op_path_spec(first: ExpV, path: Seq<ExpV>) -> ExpV {
    if path.len() == 0 {
        first
    } else if path.len() == 1 && path[0] is OpN {
        and_of(seq![first] + path[0]->OpN_1)
    } else {
        and_of(seq![first] + path)
    }
}

/// The length that a variant counts for: its number of lines.
pub open spec fn variant_len(v: ExpV) -> nat {
    match v {
        ExpV::OpN(_, args) => args.len(),
        _ => 1,
    }
}

/// The first of the longest variants, from index `i` on, given the best so far.
pub open spec fn longest_from(v: Seq<ExpV>, i: nat, best: nat, best_len: nat) -> nat
    decreases v.len() - i,
{
    if i >= v.len() {
        best
    } else if variant_len(v[i as int]) > best_len {
        longest_from(v, i + 1, i, variant_len(v[i as int]))
    } else {
        longest_from(v, i + 1, best, best_len)
    }
}

/// The first of the shortest variants, from index `i` on, given the best so far.
pub open spec fn shortest_from(v: Seq<ExpV>, i: nat, best: nat, best_len: nat) -> nat
    decreases v.len() - i,
{
    if i >= v.len() {
        best
    } else if variant_len(v[i as int]) < best_len {
        shortest_from(v, i + 1, i, variant_len(v[i as int]))
    } else {
        shortest_from(v, i + 1, best, best_len)
    }
}

/// Whether cutting the shortest variant after `i1` lines and the longest
/// after `i2` lines splits the variants evenly around a common rest.
pub open spec fn split_found(v: Seq<ExpV>, sa: Seq<ExpV>, la: Seq<ExpV>, i1: nat, i2: nat) -> bool {
    let s1 = collect_spec(v, sa.subrange(0, i1 as int));
    let s2 = collect_spec(v, la.subrange(0, i2 as int));
    s1 == s2 && s1.len() + s2.len() + 1 == v.len()
}

/// The first even split, trying `i1` and then `i2` in increasing order.
pub open spec fn split_search(v: Seq<ExpV>, sa: Seq<ExpV>, la: Seq<ExpV>, i1: nat, i2: nat) -> Option<
    (nat, nat),
>
    decreases sa.len() + 1 - i1, la.len() + 1 - i2,
{
    if i1 >= sa.len() || i1 == 0 {
        None
    } else if i2 >= la.len() || i2 == 0 {
        split_search(v, sa, la, i1 + 1, 1)
    } else if split_found(v, sa, la, i1, i2) {
        Some((i1, i2))
    } else {
        split_search(v, sa, la, i1, i2 + 1)
    }
}

/// The first line of each variant.
pub open spec fn first_elems(v: Seq<ExpV>) -> Seq<ExpV> {
    v.map_values(
        |x: ExpV|
            match x {
                ExpV::OpN(_, args) => if args.len() > 0 {
                    args[0]
                } else {
                    x
                },
                _ => x,
            },
    )
}

// ---------------------------------------------------------------------------
// Flattening alternatives

/// The lines of a branch of an `or`: the items of an `and` list, or the branch itself.
pub open spec fn flatten_single_spec(x: ExpV) -> Seq<ExpV> {
    match x {
        ExpV::OpN(op, args) => if op == "and"@ {
            args
        } else {
            seq![x]
        },
        _ => seq![x],
    }
}

/// Whether a line ends execution: it terminates, or is a two-way `or`
/// whose both branches end execution.
pub open spec fn ends_line(x: ExpV) -> bool
    decreases x, 0nat,
{
    is_terminating(x.opcode()) || match x {
        ExpV::OpN(op, args) => op == "or"@ && args.len() == 2 && ends_branch(args[0]) && ends_branch(
            args[1],
        ),
        _ => false,
    }
}

/// Whether a branch of an `or` ends execution.
pub open spec fn ends_branch(x: ExpV) -> bool
    decreases x, 1nat,
{
    match x {
        ExpV::OpN(op, args) => if op == "and"@ {
            args.len() > 0 && ends_line(args[args.len() - 1])
        } else {
            ends_line(x)
        },
        _ => ends_line(x),
    }
}

/// Whether a path ends execution.
pub open spec fn ends_exec_spec(p: Seq<ExpV>) -> bool {
    p.len() > 0 && ends_line(p[p.len() - 1])
}

/// The number of last lines that two paths share, counting at most `n - 1`
/// for a shorter path of length `n`, from `idx` on.
pub open spec fn common_tail(longer: Seq<ExpV>, shorter: Seq<ExpV>, idx: nat) -> nat
    decreases shorter.len() - idx,
{
    if idx < shorter.len() && idx <= longer.len() && idx >= 1 && longer[longer.len() - idx]
        == shorter[shorter.len() - idx] {
        common_tail(longer, shorter, idx + 1)
    } else {
        (idx - 1) as nat
    }
}

/// Two alternatives merged along their common tail.
pub open spec fn try_merge_flatten_spec(one: Seq<ExpV>, two: Seq<ExpV>) -> Seq<ExpV> {
    let (shorter, longer) = if one.len() > two.len() {
        (two, one)
    } else {
        (one, two)
    };
    let idx = common_tail(longer, shorter, 1);
    if idx > 0 {
        seq![
            ExpV::OpN(
                "or"@,
                seq![
                    and_of(longer.subrange(0, longer.len() - idx)),
                    and_of(shorter.subrange(0, shorter.len() - idx)),
                ],
            ),
        ]
    } else {
        seq![ExpV::OpN("or"@, seq![and_of(one)])]
    }
}

/// The flattening of one line: two-way `or`s whose branches are single
/// lines disappear, those whose first branch ends execution are merged
/// along their tails, and the others get flattened branches.
pub open spec fn flatten_line(x: ExpV) -> Seq<ExpV>
    decreases x, 1nat,
{
    if x.opcode() != "or"@ {
        seq![x]
    } else {
        match x {
            ExpV::OpN(op, args) => if op == "or"@ && args.len() == 2 {
                let b1 = flatten_single_spec(args[0]);
                let b2 = flatten_single_spec(args[1]);
                if b1.len() == 1 && b2.len() == 1 {
                    Seq::empty()
                } else if ends_exec_spec(b1) {
                    try_merge_flatten_spec(b1, b2)
                } else {
                    seq![ExpV::OpN("or"@, seq![flatten_branch(args[0]), flatten_branch(args[1])])]
                }
            } else {
                seq![x]
            },
            _ => seq![x],
        }
    }
}

/// The flattening of each line of a sequence.
pub open spec fn flatten_lines(s: Seq<ExpV>) -> Seq<ExpV>
    decreases s, 0nat,
{
    if s.len() == 0 {
        Seq::empty()
    } else {
        flatten_lines(s.subrange(0, s.len() - 1)) + flatten_line(s[s.len() - 1])
    }
}

/// A branch of an `or` flattened: a single line stays one, several become an `and`.
pub open spec fn flatten_branch(x: ExpV) -> ExpV
    decreases x, 2nat,
{
    let fl = match x {
        ExpV::OpN(op, args) => if op == "and"@ {
            flatten_lines(args)
        } else {
            flatten_line(x)
        },
        _ => flatten_line(x),
    };
    if fl.len() == 1 {
        fl[0]
    } else {
        and_of(fl)
    }
}

/// Every `and` and `or` list spliced into the path, recursively.
pub open spec fn splice_line(x: ExpV) -> Seq<ExpV>
    decreases x, 1nat,
{
    match x {
        ExpV::OpN(op, args) => if op == "and"@ || op == "or"@ {
            splice_lines(args)
        } else {
            seq![x]
        },
        _ => seq![x],
    }
}

pub open spec fn splice_lines(s: Seq<ExpV>) -> Seq<ExpV>
    decreases s, 0nat,
{
    if s.len() == 0 {
        Seq::empty()
    } else {
        splice_lines(s.subrange(0, s.len() - 1)) + splice_line(s[s.len() - 1])
    }
}

/// A two-way `or` of lists as an `if`: the first line of the first branch is
/// the condition.
pub open spec fn make_if_line(x: ExpV) -> ExpV {
    if x.opcode() != "or"@ {
        x
    } else {
        match x {
            ExpV::OpN(op, args) => if op == "or"@ && args.len() == 2 {
                let b1 = flatten_single_spec(args[0]);
                let b2 = flatten_single_spec(args[1]);
                if b1.len() > 0 && b2.len() > 0 {
                    ExpV::If(
                        Box::new(b1[0]),
                        b1.subrange(1, b1.len() as int),
                        b2.subrange(1, b2.len() as int),
                    )
                } else {
                    x
                }
            } else {
                x
            },
            _ => x,
        }
    }
}

/// The number of first lines that two branches share.
pub open spec fn common_head(a: Seq<ExpV>, b: Seq<ExpV>, idx: nat) -> nat
    decreases a.len() - idx,
{
    if idx < a.len() && idx < b.len() && a[idx as int] == b[idx as int] {
        common_head(a, b, idx + 1)
    } else {
        idx
    }
}

/// An `if` with the lines that both branches start with moved before it.
pub open spec fn try_merge_ifs_spec(c: ExpV, t: Seq<ExpV>, f: Seq<ExpV>) -> Seq<ExpV> {
    let idx = common_head(t, f, 0);
    t.subrange(0, idx as int).push(
        ExpV::If(Box::new(c), t.subrange(idx as int, t.len() as int), f.subrange(idx as int, f.len() as int)),
    )
}

/// The `if`s of a path from line `i` on merged: an `if` without an `else`
/// takes the rest of the path as its `else`.
pub open spec fn merge_ifs_at(path: Seq<ExpV>, i: nat) -> Seq<ExpV>
    decreases path, path.len() - i,
{
    if i >= path.len() {
        Seq::empty()
    } else {
        match path[i as int] {
            ExpV::If(c, t, f) => if f.len() == 0 {
                try_merge_ifs_spec(
                    *c,
                    merge_ifs_at(t, 0),
                    merge_ifs_at(path.subrange((i + 1) as int, path.len() as int), 0),
                )
            } else {
                try_merge_ifs_spec(*c, merge_ifs_at(t, 0), merge_ifs_at(f, 0)) + merge_ifs_at(
                    path,
                    i + 1,
                )
            },
            _ => seq![path[i as int]] + merge_ifs_at(path, i + 1),
        }
    }
}

/// The steps after the paths are merged: flattening, splicing, `if`s, and
/// `or` and `and` made binary again.
pub open spec fn post_merge(out: Seq<ExpV>) -> Seq<ExpV> {
    replace_f_seq(
        merge_ifs_at(splice_lines(flatten_lines(out)).map_values(|x: ExpV| make_if_line(x)), 0),
        false,
    )
}

/// Whether a branch that is left out of an `if` only stops execution.
pub open spec fn false_terminates(f: Seq<ExpV>) -> bool {
    f.len() == 1 && ((f[0].opcode() == "return"@ && f[0] == ExpV::Int(0)) || (f[0].opcode()
        == "revert"@ && f[0] == ExpV::Int(0)) || f[0].opcode() == "invalid"@)
}

/// Whether a folded branch ends with a terminating line.
pub open spec fn ends_terminating(t: Seq<ExpV>) -> bool {
    t.len() > 0 && is_terminating(t[t.len() - 1].opcode())
}

// ---------------------------------------------------------------------------
// Folding, with at most `fuel` levels of nested folding

/// The lines of a merge of paths: their common prefix, an `or` of what
/// differs, and their common suffix.
pub open spec fn merged_lines(sorted: Seq<Seq<ExpV>>) -> Seq<ExpV> {
    let b = begin_offset_spec(sorted);
    let e = end_offset_spec(sorted);
    let s_with = starting_with_spec(sorted, b);
    if e > 0 {
        sorted[0].subrange(0, b as int).push(make_or_spec(ending_with_spec(s_with, e))) + sorted[0].subrange(
            sorted[0].len() - e,
            sorted[0].len() as int,
        )
    } else {
        sorted[0].subrange(0, b as int).push(make_or_spec(s_with))
    }
}

/// Paths merged into one trace.
pub open spec fn fold_paths_spec(for_merge: Seq<Seq<ExpV>>, fuel: nat) -> Option<Seq<ExpV>>
    decreases fuel, 0nat,
{
    if fuel == 0 {
        None
    } else if for_merge.len() == 0 {
        Some(Seq::empty())
    } else if for_merge.len() == 1 {
        Some(for_merge[0])
    } else {
        fold_merged(merged_lines(sort_by_len(for_merge)), 0, (fuel - 1) as nat)
    }
}

/// The lines of a merge from `i` on, with each `or` folded further.
pub open spec fn fold_merged(merged: Seq<ExpV>, i: nat, fuel: nat) -> Option<Seq<ExpV>>
    decreases fuel, merged.len() - i + 2,
{
    if i >= merged.len() {
        Some(Seq::empty())
    } else {
        let line = merged[i as int];
        if line.opcode() != "or"@ {
            prefix_opt(seq![line], fold_merged(merged, i + 1, fuel))
        } else {
            match fold_or_line_spec(line, fuel) {
                Some((ors, paths)) => match fold_paths_spec(paths, fuel) {
                    Some(fp) => prefix_opt(seq![ors] + fp, fold_merged(merged, i + 1, fuel)),
                    None => None,
                },
                None => None,
            }
        }
    }
}

/// An `or` line split into a shorter `or` and the paths still to merge.
pub open spec fn fold_or_line_spec(line: ExpV, fuel: nat) -> Option<(ExpV, Seq<Seq<ExpV>>)>
    decreases fuel, 1nat,
{
    match line {
        ExpV::OpN(op, v) => if op != "or"@ || v.len() == 0 {
            Some((line, Seq::empty()))
        } else {
            let li = longest_from(v, 0, 0, 0);
            let si = shortest_from(v, 0, 0, usize::MAX as nat);
            match (v[li as int], v[si as int]) {
                (ExpV::OpN(_, la), ExpV::OpN(_, sa)) => match split_search(v, sa, la, 1, 1) {
                    Some((b1, b2)) => Some(
                        (
                            make_or_spec(seq![sa.subrange(0, b1 as int), la.subrange(0, b2 as int)]),
                            collect_spec(v, sa.subrange(0, b1 as int)),
                        ),
                    ),
                    None => {
                        let fe = first_elems(v);
                        let s1 = collect_spec(v, fe);
                        match fold_paths_spec(s1, fuel) {
                            Some(fp) => Some(
                                (
                                    ExpV::OpN(
                                        "or"@,
                                        seq![
                                            and_op_path_spec(fe[si as int], fp),
                                            and_op_path_spec(fe[li as int], fp),
                                        ],
                                    ),
                                    Seq::empty(),
                                ),
                            ),
                            None => None,
                        }
                    },
                },
                _ => Some((line, Seq::empty())),
            }
        },
        _ => Some((line, Seq::empty())),
    }
}

/// The merge of the non-empty paths, simplified.
pub open spec fn meta_fold_spec(paths: Seq<Seq<ExpV>>, fuel: nat) -> Option<Seq<ExpV>> {
    let fm = non_empty(paths);
    if fm.len() == 0 {
        Some(Seq::empty())
    } else {
        match fold_paths_spec(fm, fuel) {
            Some(o) => Some(post_merge(o)),
            None => None,
        }
    }
}

/// A trace folded.
pub open spec fn fold_spec(trace: Seq<ExpV>, fuel: nat) -> Option<Seq<ExpV>>
    decreases fuel, trace, 0nat,
{
    if fuel == 0 {
        None
    } else {
        match meta_fold_spec(as_paths_spec(trace), fuel) {
            Some(log) => fold_aux_spec(log, 0, (fuel - 1) as nat),
            None => None,
        }
    }
}

/// The lines of a folded trace from line `i` on: loop bodies are folded,
/// and an `if` whose `else` only stops takes the rest of the trace.
pub open spec fn fold_aux_spec(trace: Seq<ExpV>, i: nat, fuel: nat) -> Option<Seq<ExpV>>
    decreases fuel, trace, trace.len() - i + 1,
{
    if i >= trace.len() {
        Some(Seq::empty())
    } else {
        match trace[i as int] {
            ExpV::While(c, b) => match fold_spec(b, fuel) {
                Some(fb) => prefix_opt(seq![ExpV::While(c, fb)], fold_aux_spec(trace, i + 1, fuel)),
                None => None,
            },
            ExpV::If(c, t, f) => match fold_aux_spec(t, 0, fuel) {
                None => None,
                Some(tf) => if f.len() == 0 || false_terminates(f) {
                    if tf.len() > 0 && !ends_terminating(tf) {
                        Some(
                            seq![
                                ExpV::If(
                                    c,
                                    if f.len() > 0 {
                                        tf.push(f[0])
                                    } else {
                                        tf
                                    },
                                    Seq::empty(),
                                ),
                            ],
                        )
                    } else {
                        Some(seq![ExpV::If(c, tf, Seq::empty())])
                    }
                } else {
                    match fold_aux_spec(f, 0, fuel) {
                        None => None,
                        Some(ff) => {
                            let lines = if ends_terminating(tf) && !(ff.len() > 0 && ff[0].opcode()
                                == "invalid"@) && ff.len() > 0 {
                                seq![ExpV::If(c, tf, Seq::empty())] + ff
                            } else {
                                seq![ExpV::If(c, tf, ff)]
                            };
                            prefix_opt(lines, fold_aux_spec(trace, i + 1, fuel))
                        },
                    }
                },
            },
            _ => prefix_opt(seq![trace[i as int]], fold_aux_spec(trace, i + 1, fuel)),
        }
    }
}

// ---------------------------------------------------------------------------
// Traces that folding leaves alone

/// A line that folding leaves alone: no `if`, loop or `while`, not an `and`
/// or `or` list, and no two-element `for` or `fand` list anywhere in it.
pub open spec fn plain_line(x: ExpV) -> bool {
    &&& !(x is If)
    &&& !(x is Loop)
    &&& !(x is While)
    &&& !(x matches ExpV::OpN(op, _) && (op == "and"@ || op == "or"@))
    &&& free_of_pair_lists(x)
}

/// Whether a line is neither a branch nor a loop, nor an `and` or `or` list.
spec fn straight_line(y: ExpV) -> bool {
    &&& !(y is If)
    &&& !(y is Loop)
    &&& !(y is While)
    &&& !(y matches ExpV::OpN(op, _) && (op == "and"@ || op == "or"@))
}

proof fn lemma_made_line_straight(x: ExpV)
    requires
        plain_line(x),
    ensures
        straight_line(replace_f_spec(x, true)),
{
    reveal_strlit("or");
    reveal_strlit("and");
    reveal_strlit("for");
    reveal_strlit("fand");
    assert("for"@ != "or"@) by {
        assert("for"@.len() != "or"@.len());
    }
    assert("for"@ != "and"@) by {
        assert("for"@[0] != "and"@[0]);
    }
    assert("fand"@ != "or"@) by {
        assert("fand"@.len() != "or"@.len());
    }
    assert("fand"@ != "and"@) by {
        assert("fand"@.len() != "and"@.len());
    }
}

proof fn lemma_replace_f_seq_index(s: Seq<ExpV>, make: bool)
    ensures
        replace_f_seq(s, make).len() == s.len(),
        forall|k: int|
            0 <= k < s.len() ==> #[trigger] replace_f_seq(s, make)[k] == replace_f_spec(s[k], make),
    decreases s.len(),
{
    if s.len() > 0 {
        lemma_replace_f_seq_index(s.subrange(0, s.len() - 1), make);
    }
}

proof fn lemma_paths_straight(t: Seq<ExpV>, i: nat, path: Seq<ExpV>)
    requires
        i <= t.len(),
        forall|k: int| 0 <= k < t.len() ==> straight_line(#[trigger] t[k]),
    ensures
        paths_at(t, i, path) == seq![path + t.subrange(i as int, t.len() as int)],
    decreases t.len() - i,
{
    if i < t.len() {
        assert(straight_line(t[i as int]));
        lemma_paths_straight(t, i + 1, path.push(t[i as int]));
        assert(path.push(t[i as int]) + t.subrange(i + 1 as int, t.len() as int) =~= path + t.subrange(
            i as int,
            t.len() as int,
        ));
    } else {
        assert(path + t.subrange(i as int, t.len() as int) =~= path);
    }
}

proof fn lemma_post_merge_straight(t: Seq<ExpV>)
    requires
        forall|k: int| 0 <= k < t.len() ==> straight_line(#[trigger] t[k]),
    ensures
        flatten_lines(t) == t,
        splice_lines(t) == t,
        t.map_values(|x: ExpV| make_if_line(x)) == t,
        merge_ifs_at(t, 0) == t,
{
    lemma_flatten_straight(t);
    lemma_splice_straight(t);
    assert(t.map_values(|x: ExpV| make_if_line(x)) =~= t);
    lemma_merge_ifs_straight(t, 0);
    assert(t.subrange(0, t.len() as int) =~= t);
}

proof fn lemma_flatten_straight(t: Seq<ExpV>)
    requires
        forall|k: int| 0 <= k < t.len() ==> straight_line(#[trigger] t[k]),
    ensures
        flatten_lines(t) == t,
    decreases t.len(),
{
    if t.len() > 0 {
        let init = t.subrange(0, t.len() - 1);
        assert forall|k: int| 0 <= k < init.len() implies straight_line(#[trigger] init[k]) by {
            assert(init[k] == t[k]);
        }
        lemma_flatten_straight(init);
        let x = t[t.len() - 1];
        assert(straight_line(x));
        assert(flatten_line(x) == seq![x]);
        assert(t =~= init + seq![t[t.len() - 1]]);
    }
}

proof fn lemma_splice_straight(t: Seq<ExpV>)
    requires
        forall|k: int| 0 <= k < t.len() ==> straight_line(#[trigger] t[k]),
    ensures
        splice_lines(t) == t,
    decreases t.len(),
{
    if t.len() > 0 {
        let init = t.subrange(0, t.len() - 1);
        assert forall|k: int| 0 <= k < init.len() implies straight_line(#[trigger] init[k]) by {
            assert(init[k] == t[k]);
        }
        lemma_splice_straight(init);
        let x = t[t.len() - 1];
        assert(straight_line(x));
        assert(splice_line(x) == seq![x]);
        assert(t =~= init + seq![t[t.len() - 1]]);
    }
}

proof fn lemma_merge_ifs_straight(t: Seq<ExpV>, i: nat)
    requires
        i <= t.len(),
        forall|k: int| 0 <= k < t.len() ==> straight_line(#[trigger] t[k]),
    ensures
        merge_ifs_at(t, i) == t.subrange(i as int, t.len() as int),
    decreases t.len() - i,
{
    if i < t.len() {
        assert(straight_line(t[i as int]));
        lemma_merge_ifs_straight(t, i + 1);
        assert(seq![t[i as int]] + t.subrange(i + 1 as int, t.len() as int) =~= t.subrange(
            i as int,
            t.len() as int,
        ));
    } else {
        assert(t.subrange(i as int, t.len() as int) =~= Seq::<ExpV>::empty());
    }
}

proof fn lemma_fold_aux_straight(t: Seq<ExpV>, i: nat, fuel: nat)
    requires
        i <= t.len(),
        forall|k: int| 0 <= k < t.len() ==> !(#[trigger] t[k] is If) && !(t[k] is While),
    ensures
        fold_aux_spec(t, i, fuel) == Some(t.subrange(i as int, t.len() as int)),
    decreases t.len() - i,
{
    if i < t.len() {
        assert(!(t[i as int] is If) && !(t[i as int] is While));
        lemma_fold_aux_straight(t, i + 1, fuel);
        assert(seq![t[i as int]] + t.subrange(i + 1 as int, t.len() as int) =~= t.subrange(
            i as int,
            t.len() as int,
        ));
    } else {
        assert(t.subrange(i as int, t.len() as int) =~= Seq::<ExpV>::empty());
    }
}

/// A trace of lines that folding leaves alone, with no branch or loop,
/// folds to itself.
pub proof fn lemma_fold_keeps_plain_trace(t: Seq<ExpV>)
    requires
        forall|k: int| 0 <= k < t.len() ==> plain_line(#[trigger] t[k]),
    ensures
        fold_result(t) == t,
{
    let m = replace_f_seq(t, true);
    lemma_replace_f_seq_index(t, true);
    assert forall|k: int| 0 <= k < m.len() implies straight_line(#[trigger] m[k]) by {
        lemma_made_line_straight(t[k]);
    }
    lemma_paths_straight(m, 0, Seq::empty());
    assert(Seq::<ExpV>::empty() + m.subrange(0, m.len() as int) =~= m);
    assert(as_paths_spec(t) == seq![m]);
    assert(free_of_pair_lists_seq(t)) by {
        lemma_free_seq_of_lines(t);
    }
    lemma_fands_round_trip_seq(t);
    assert forall|k: int| 0 <= k < t.len() implies !(#[trigger] t[k] is If) && !(t[k] is While) by {
        assert(plain_line(t[k]));
    }
    let fuel = fold_fuel();
    reveal_with_fuel(non_empty, 2);
    if t.len() == 0 {
        assert(seq![m].last().len() == 0);
        assert(non_empty(seq![m]) =~= non_empty(Seq::<Seq<ExpV>>::empty()));
        assert(meta_fold_spec(as_paths_spec(t), fuel) == Some(Seq::<ExpV>::empty()));
        lemma_fold_aux_straight(t, 0, (fuel - 1) as nat);
        assert(t.subrange(0, 0) =~= t);
    } else {
        assert(non_empty(seq![m]) =~= seq![m]) by {
            assert(seq![m].drop_last() =~= Seq::<Seq<ExpV>>::empty());
        }
        lemma_post_merge_straight(m);
        assert(post_merge(m) == t);
        assert(meta_fold_spec(as_paths_spec(t), fuel) == Some(t));
        lemma_fold_aux_straight(t, 0, (fuel - 1) as nat);
        assert(t.subrange(0, t.len() as int) =~= t);
    }
}

proof fn lemma_free_seq_of_lines(t: Seq<ExpV>)
    requires
        forall|k: int| 0 <= k < t.len() ==> free_of_pair_lists(#[trigger] t[k]),
    ensures
        free_of_pair_lists_seq(t),
    decreases t.len(),
{
    if t.len() > 0 {
        let init = t.subrange(0, t.len() - 1);
        assert forall|k: int| 0 <= k < init.len() implies free_of_pair_lists(#[trigger] init[k]) by {
            assert(init[k] == t[k]);
        }
        lemma_free_seq_of_lines(init);
        assert(free_of_pair_lists(t[t.len() - 1]));
    }
}

/// The fuel with which [`crate::folder::fold`] folds.
pub open spec fn fold_fuel() -> nat {
    u64::MAX as nat
}

/// The result of [`crate::folder::fold`]: the folded trace, or the trace
/// itself when it nests deeper than the fuel allows.
pub open spec fn fold_result(trace: Seq<ExpV>) -> Seq<ExpV> {
    match fold_spec(trace, fold_fuel()) {
        Some(r) => r,
        None => trace,
    }
}

} // verus!
