//! Core types for the EVM decompiler

use vstd::prelude::*;

verus! {

/// A symbolic expression: an operator applied to operands, nested as tuples.
#[derive(Debug, PartialEq, Eq, Hash)]
pub enum Exp {
    Var(String),
    Int(u128),
    Str(String),
    Null,
    Jd(u64),
    Op(String),
    Op1(String, Box<Exp>),
    Op2(String, Box<Exp>, Box<Exp>),
    Op3(String, Box<Exp>, Box<Exp>, Box<Exp>),
    Op4(String, Box<Exp>, Box<Exp>, Box<Exp>, Box<Exp>),
    OpN(String, Vec<Exp>),
    Label(Box<Exp>, Vec<(u64, u64, Exp)>),
    If(Box<Exp>, Vec<Exp>, Vec<Exp>),
    While(Box<Exp>, Vec<Exp>),
    Goto(Box<Exp>, Vec<(u64, u64, Exp)>),
    Loop(Box<Exp>, Vec<Exp>, Vec<Exp>, Vec<(u64, u64, Exp)>),
    Continue,
    Break,
}

/// The mathematical value of an [`Exp`]: strings become character sequences
/// and vectors become sequences.
pub enum ExpV {
    Var(Seq<char>),
    Int(u128),
    Str(Seq<char>),
    Null,
    Jd(u64),
    Op(Seq<char>),
    Op1(Seq<char>, Box<ExpV>),
    Op2(Seq<char>, Box<ExpV>, Box<ExpV>),
    Op3(Seq<char>, Box<ExpV>, Box<ExpV>, Box<ExpV>),
    Op4(Seq<char>, Box<ExpV>, Box<ExpV>, Box<ExpV>, Box<ExpV>),
    OpN(Seq<char>, Seq<ExpV>),
    Label(Box<ExpV>, Seq<(u64, u64, ExpV)>),
    If(Box<ExpV>, Seq<ExpV>, Seq<ExpV>),
    While(Box<ExpV>, Seq<ExpV>),
    Goto(Box<ExpV>, Seq<(u64, u64, ExpV)>),
    Loop(Box<ExpV>, Seq<ExpV>, Seq<ExpV>, Seq<(u64, u64, ExpV)>),
    Continue,
    Break,
}

/// The value of an expression.
pub open spec fn ev(e: Exp) -> ExpV
    decreases e,
{
    match e {
        Exp::Var(s) => ExpV::Var(s@),
        Exp::Int(n) => ExpV::Int(n),
        Exp::Str(s) => ExpV::Str(s@),
        Exp::Null => ExpV::Null,
        Exp::Jd(n) => ExpV::Jd(n),
        Exp::Op(s) => ExpV::Op(s@),
        Exp::Op1(s, a) => ExpV::Op1(s@, Box::new(ev(*a))),
        Exp::Op2(s, a, b) => ExpV::Op2(s@, Box::new(ev(*a)), Box::new(ev(*b))),
        Exp::Op3(s, a, b, c) => ExpV::Op3(s@, Box::new(ev(*a)), Box::new(ev(*b)), Box::new(ev(*c))),
        Exp::Op4(s, a, b, c, d) => ExpV::Op4(
            s@,
            Box::new(ev(*a)),
            Box::new(ev(*b)),
            Box::new(ev(*c)),
            Box::new(ev(*d)),
        ),
        Exp::OpN(s, args) => ExpV::OpN(s@, evs(args@)),
        Exp::Label(t, vs) => ExpV::Label(Box::new(ev(*t)), evts(vs@)),
        Exp::If(c, t, f) => ExpV::If(Box::new(ev(*c)), evs(t@), evs(f@)),
        Exp::While(c, b) => ExpV::While(Box::new(ev(*c)), evs(b@)),
        Exp::Goto(t, vs) => ExpV::Goto(Box::new(ev(*t)), evts(vs@)),
        Exp::Loop(l, b, j, vs) => ExpV::Loop(Box::new(ev(*l)), evs(b@), evs(j@), evts(vs@)),
        Exp::Continue => ExpV::Continue,
        Exp::Break => ExpV::Break,
    }
}

/// The values of a sequence of expressions.
pub open spec fn evs(s: Seq<Exp>) -> Seq<ExpV>
    decreases s,
{
    if s.len() == 0 {
        Seq::empty()
    } else {
        evs(s.subrange(0, s.len() - 1)).push(ev(s[s.len() - 1]))
    }
}

/// The values of a sequence of variable assignments.
pub open spec fn evts(s: Seq<(u64, u64, Exp)>) -> Seq<(u64, u64, ExpV)>
    decreases s,
{
    if s.len() == 0 {
        Seq::empty()
    } else {
        evts(s.subrange(0, s.len() - 1)).push(
            (s[s.len() - 1].0, s[s.len() - 1].1, ev(s[s.len() - 1].2)),
        )
    }
}

impl ExpV {
    /// The name of the expression's kind, or its operator.
    pub open spec fn opcode(self) -> Seq<char> {
        match self {
            ExpV::Var(_) => "var"@,
            ExpV::Int(_) => "int"@,
            ExpV::Str(_) => "str"@,
            ExpV::Null => "none"@,
            ExpV::Jd(_) => "jd"@,
            ExpV::Op(op) => op,
            ExpV::Op1(op, _) => op,
            ExpV::Op2(op, _, _) => op,
            ExpV::Op3(op, _, _, _) => op,
            ExpV::Op4(op, _, _, _, _) => op,
            ExpV::OpN(op, _) => op,
            ExpV::Label(..) => "label"@,
            ExpV::If(..) => "if"@,
            ExpV::While(..) => "while"@,
            ExpV::Goto(..) => "goto"@,
            ExpV::Loop(..) => "loop"@,
            ExpV::Continue => "continue"@,
            ExpV::Break => "break"@,
        }
    }

    /// Whether the expression is built from constants only.
    pub open spec fn is_concrete(self) -> bool
        decreases self,
    {
        match self {
            ExpV::Int(_) | ExpV::Str(_) | ExpV::Null => true,
            ExpV::Op1(_, a) => a.is_concrete(),
            ExpV::Op2(_, a, b) => a.is_concrete() && b.is_concrete(),
            ExpV::Op3(_, a, b, c) => a.is_concrete() && b.is_concrete() && c.is_concrete(),
            _ => false,
        }
    }

    /// The operands of an operator expression.
    pub open spec fn args(self) -> Seq<ExpV> {
        match self {
            ExpV::Op1(_, a) => seq![*a],
            ExpV::Op2(_, a, b) => seq![*a, *b],
            ExpV::Op3(_, a, b, c) => seq![*a, *b, *c],
            ExpV::Op4(_, a, b, c, d) => seq![*a, *b, *c, *d],
            ExpV::OpN(_, args) => args,
            _ => Seq::empty(),
        }
    }

    pub open spec fn op1(op: Seq<char>, a: ExpV) -> ExpV {
        ExpV::Op1(op, Box::new(a))
    }

    pub open spec fn op2(op: Seq<char>, a: ExpV, b: ExpV) -> ExpV {
        ExpV::Op2(op, Box::new(a), Box::new(b))
    }
}

impl View for Exp {
    type V = ExpV;

    open spec fn view(&self) -> ExpV {
        ev(*self)
    }
}

pub broadcast proof fn lemma_evs(s: Seq<Exp>)
    ensures
        #[trigger] evs(s).len() == s.len(),
        forall|i: int| 0 <= i < s.len() ==> #[trigger] evs(s)[i] == ev(s[i]),
    decreases s.len(),
{
    if s.len() > 0 {
        lemma_evs(s.subrange(0, s.len() - 1));
    }
}

pub broadcast proof fn lemma_evts(s: Seq<(u64, u64, Exp)>)
    ensures
        #[trigger] evts(s).len() == s.len(),
        forall|i: int|
            0 <= i < s.len() ==> #[trigger] evts(s)[i] == (s[i].0, s[i].1, ev(s[i].2)),
    decreases s.len(),
{
    if s.len() > 0 {
        lemma_evts(s.subrange(0, s.len() - 1));
    }
}

/// The values of a concatenation are the concatenation of the values.
pub proof fn lemma_evs_concat(a: Seq<Exp>, b: Seq<Exp>)
    ensures
        evs(a + b) == evs(a) + evs(b),
{
    lemma_evs(a);
    lemma_evs(b);
    lemma_evs(a + b);
    assert(evs(a + b) =~= evs(a) + evs(b));
}

/// The values of a prefix one longer end with the value of the added line.
pub proof fn lemma_evs_prefix(t: Seq<Exp>, i: int)
    requires
        0 <= i < t.len(),
    ensures
        evs(t.subrange(0, i + 1)) == evs(t.subrange(0, i)).push(ev(t[i])),
        evs(t.subrange(0, i)).push(ev(t[i])).drop_last() == evs(t.subrange(0, i)),
        evs(t.subrange(0, i)).push(ev(t[i])).last() == ev(t[i]),
{
    assert(t.subrange(0, i + 1).subrange(0, i) =~= t.subrange(0, i));
    assert(evs(t.subrange(0, i)).push(ev(t[i])).drop_last() =~= evs(t.subrange(0, i)));
}

/// A sequence with one element pushed loses it again when its last element is dropped.
pub proof fn lemma_push_prefix<A>(s: Seq<A>, x: A)
    ensures
        s.push(x).subrange(0, s.push(x).len() - 1) == s,
        s.push(x)[s.push(x).len() - 1] == x,
{
    assert(s.push(x).subrange(0, s.push(x).len() - 1) =~= s);
}

/// The values of a part of a sequence are that part of the values.
pub proof fn lemma_evs_subrange(s: Seq<Exp>, i: int, j: int)
    requires
        0 <= i <= j <= s.len(),
    ensures
        evs(s.subrange(i, j)) == evs(s).subrange(i, j),
{
    lemma_evs(s);
    lemma_evs(s.subrange(i, j));
    assert(evs(s.subrange(i, j)) =~= evs(s).subrange(i, j));
}

fn lit(s: &str) -> (r: String)
    ensures
        r@ == s@,
{
    String::from_str(s)
}

impl Exp {
    /// The name of the expression's kind, or its operator.
    pub fn opcode(&self) -> (r: &str)
        ensures
            r@ == self@.opcode(),
    {
        match self {
            Exp::Var(_) => "var",
            Exp::Int(_) => "int",
            Exp::Str(_) => "str",
            Exp::Null => "none",
            Exp::Jd(_) => "jd",
            Exp::Op(op) => op.as_str(),
            Exp::Op1(op, _) => op.as_str(),
            Exp::Op2(op, _, _) => op.as_str(),
            Exp::Op3(op, _, _, _) => op.as_str(),
            Exp::Op4(op, _, _, _, _) => op.as_str(),
            Exp::OpN(op, _) => op.as_str(),
            Exp::Label(..) => "label",
            Exp::If(..) => "if",
            Exp::While(..) => "while",
            Exp::Goto(..) => "goto",
            Exp::Loop(..) => "loop",
            Exp::Continue => "continue",
            Exp::Break => "break",
        }
    }

    /// Whether the expression is built from constants only.
    pub fn is_concrete(&self) -> (r: bool)
        ensures
            r == self@.is_concrete(),
        decreases self,
    {
        match self {
            Exp::Int(_) | Exp::Str(_) | Exp::Null => true,
            Exp::Op1(_, a) => a.is_concrete(),
            Exp::Op2(_, a, b) => a.is_concrete() && b.is_concrete(),
            Exp::Op3(_, a, b, c) => a.is_concrete() && b.is_concrete() && c.is_concrete(),
            _ => false,
        }
    }

    /// The operands of an operator expression.
    pub fn args(&self) -> (r: Vec<&Exp>)
        ensures
            r@.len() == self@.args().len(),
            forall|i: int| 0 <= i < r@.len() ==> ev(*#[trigger] r@[i]) == self@.args()[i],
    {
        match self {
            Exp::Op1(_, a) => vec![&**a],
            Exp::Op2(_, a, b) => vec![&**a, &**b],
            Exp::Op3(_, a, b, c) => vec![&**a, &**b, &**c],
            Exp::Op4(_, a, b, c, d) => vec![&**a, &**b, &**c, &**d],
            Exp::OpN(_, args) => {
                let mut r: Vec<&Exp> = Vec::new();
                let mut i: usize = 0;
                while i < args.len()
                    invariant
                        i <= args.len(),
                        r@.len() == i,
                        forall|k: int| 0 <= k < i ==> *#[trigger] r@[k] == args@[k],
                    decreases args.len() - i,
                {
                    r.push(&args[i]);
                    i += 1;
                }
                proof {
                    lemma_evs(args@);
                }
                r
            },
            _ => Vec::new(),
        }
    }

    /// `(cd idx none)`: the calldata word at `idx`.
    pub fn cd(idx: u64) -> (r: Exp)
        ensures
            r@ == ExpV::op2("cd"@, ExpV::Int(idx as u128), ExpV::Null),
    {
        let r = Exp::Op2(lit("cd"), Box::new(Exp::Int(idx as u128)), Box::new(Exp::Null));
        proof {
            reveal_with_fuel(ev, 2);
        }
        r
    }

    /// `(storage loc)`.
    pub fn storage(loc: Exp) -> (r: Exp)
        ensures
            r@ == ExpV::op1("storage"@, loc@),
    {
        Exp::Op1(lit("storage"), Box::new(loc))
    }

    /// `(add a b)`.
    pub fn add(a: Exp, b: Exp) -> (r: Exp)
        ensures
            r@ == ExpV::op2("add"@, a@, b@),
    {
        Exp::Op2(lit("add"), Box::new(a), Box::new(b))
    }

    /// `(sub a b)`.
    pub fn sub(a: Exp, b: Exp) -> (r: Exp)
        ensures
            r@ == ExpV::op2("sub"@, a@, b@),
    {
        Exp::Op2(lit("sub"), Box::new(a), Box::new(b))
    }

    /// `(mul a b)`.
    pub fn mul(a: Exp, b: Exp) -> (r: Exp)
        ensures
            r@ == ExpV::op2("mul"@, a@, b@),
    {
        Exp::Op2(lit("mul"), Box::new(a), Box::new(b))
    }

    /// `(eq a b)`.
    pub fn eq(a: Exp, b: Exp) -> (r: Exp)
        ensures
            r@ == ExpV::op2("eq"@, a@, b@),
    {
        Exp::Op2(lit("eq"), Box::new(a), Box::new(b))
    }

    /// `(lt a b)`.
    pub fn lt(a: Exp, b: Exp) -> (r: Exp)
        ensures
            r@ == ExpV::op2("lt"@, a@, b@),
    {
        Exp::Op2(lit("lt"), Box::new(a), Box::new(b))
    }

    /// `(iszero a)`.
    pub fn iszero(a: Exp) -> (r: Exp)
        ensures
            r@ == ExpV::op1("iszero"@, a@),
    {
        Exp::Op1(lit("iszero"), Box::new(a))
    }

    /// `(and a b)`.
    pub fn and(a: Exp, b: Exp) -> (r: Exp)
        ensures
            r@ == ExpV::op2("and"@, a@, b@),
    {
        Exp::Op2(lit("and"), Box::new(a), Box::new(b))
    }

    /// `(or a b)`.
    pub fn or(a: Exp, b: Exp) -> (r: Exp)
        ensures
            r@ == ExpV::op2("or"@, a@, b@),
    {
        Exp::Op2(lit("or"), Box::new(a), Box::new(b))
    }

    /// `(sha3 a)`.
    pub fn sha3(a: Exp) -> (r: Exp)
        ensures
            r@ == ExpV::op1("sha3"@, a@),
    {
        Exp::Op1(lit("sha3"), Box::new(a))
    }

    /// A variable named `name`.
    pub fn var(name: &str) -> (r: Exp)
        ensures
            r@ == ExpV::Var(name@),
    {
        Exp::Var(lit(name))
    }

    /// An integer constant.
    pub fn num(val: u128) -> (r: Exp)
        ensures
            r@ == ExpV::Int(val),
    {
        Exp::Int(val)
    }
}

/// A trace: a sequence of expressions.
pub type Trace = Vec<Exp>;

/// A position in the bytecode.
#[derive(Debug, Clone, Copy, PartialEq, Eq, Hash, Structural)]
pub struct Position(pub u64);

impl Position {
    pub fn new(pos: u64) -> (r: Self)
        ensures
            r.0 == pos,
    {
        Position(pos)
    }

    pub fn as_u64(&self) -> (r: u64)
        ensures
            r == self.0,
    {
        self.0
    }
}

impl Clone for Exp {
    fn clone(&self) -> (r: Self)
        ensures
            r@ == self@,
    {
        copy_exp(self)
    }
}

/// Copies an expression.
pub fn copy_exp(e: &Exp) -> (r: Exp)
    ensures
        r@ == e@,
    decreases e,
{
    match e {
        Exp::Var(s) => Exp::Var(s.clone()),
        Exp::Int(n) => Exp::Int(*n),
        Exp::Str(s) => Exp::Str(s.clone()),
        Exp::Null => Exp::Null,
        Exp::Jd(n) => Exp::Jd(*n),
        Exp::Op(s) => Exp::Op(s.clone()),
        Exp::Op1(s, a) => Exp::Op1(s.clone(), Box::new(copy_exp(a))),
        Exp::Op2(s, a, b) => Exp::Op2(s.clone(), Box::new(copy_exp(a)), Box::new(copy_exp(b))),
        Exp::Op3(s, a, b, c) => Exp::Op3(
            s.clone(),
            Box::new(copy_exp(a)),
            Box::new(copy_exp(b)),
            Box::new(copy_exp(c)),
        ),
        Exp::Op4(s, a, b, c, d) => Exp::Op4(
            s.clone(),
            Box::new(copy_exp(a)),
            Box::new(copy_exp(b)),
            Box::new(copy_exp(c)),
            Box::new(copy_exp(d)),
        ),
        Exp::OpN(s, args) => Exp::OpN(s.clone(), copy_exps(args)),
        Exp::Label(t, vs) => Exp::Label(Box::new(copy_exp(t)), copy_triples(vs)),
        Exp::If(c, t, f) => Exp::If(Box::new(copy_exp(c)), copy_exps(t), copy_exps(f)),
        Exp::While(c, b) => Exp::While(Box::new(copy_exp(c)), copy_exps(b)),
        Exp::Goto(t, vs) => Exp::Goto(Box::new(copy_exp(t)), copy_triples(vs)),
        Exp::Loop(l, b, j, vs) => Exp::Loop(
            Box::new(copy_exp(l)),
            copy_exps(b),
            copy_exps(j),
            copy_triples(vs),
        ),
        Exp::Continue => Exp::Continue,
        Exp::Break => Exp::Break,
    }
}

/// Copies a sequence of expressions.
pub fn copy_exps(v: &Vec<Exp>) -> (r: Vec<Exp>)
    ensures
        evs(r@) == evs(v@),
    decreases v,
{
    broadcast use lemma_evs;
    let mut r: Vec<Exp> = Vec::new();
    let mut i: usize = 0;
    while i < v.len()
        invariant
            i <= v.len(),
            r@.len() == i,
            forall|k: int| 0 <= k < i ==> ev(#[trigger] r@[k]) == ev(v@[k]),
        decreases v.len() - i,
    {
        assert(decreases_to!(v => v@[i as int]));
        r.push(copy_exp(&v[i]));
        i += 1;
    }
    assert(evs(r@) =~= evs(v@));
    r
}

/// Appends an expression to a trace.
pub fn push_exp(v: &mut Vec<Exp>, e: Exp)
    ensures
        evs(final(v)@) == evs(old(v)@).push(e@),
{
    let ghost before = v@;
    v.push(e);
    proof {
        lemma_evs(v@);
        lemma_evs(before);
        assert(evs(v@) =~= evs(before).push(e@));
    }
}

/// Appends the lines of `w` to a trace.
pub fn extend_exps(v: &mut Vec<Exp>, w: Vec<Exp>)
    ensures
        evs(final(v)@) == evs(old(v)@) + evs(w@),
{
    let ghost before = v@;
    let ghost wv = w@;
    let mut w = w;
    v.append(&mut w);
    proof {
        lemma_evs_concat(before, wv);
    }
}

/// Copies the expressions of `v` from index `from` on.
pub fn copy_from(v: &Vec<Exp>, from: usize) -> (r: Vec<Exp>)
    requires
        from <= v.len(),
    ensures
        evs(r@) == evs(v@).subrange(from as int, v.len() as int),
{
    broadcast use lemma_evs;
    let mut r: Vec<Exp> = Vec::new();
    let mut i: usize = from;
    while i < v.len()
        invariant
            from <= i <= v.len(),
            r@.len() == i - from,
            forall|k: int| 0 <= k < i - from ==> ev(#[trigger] r@[k]) == ev(v@[k + from]),
        decreases v.len() - i,
    {
        r.push(copy_exp(&v[i]));
        i += 1;
    }
    assert(evs(r@) =~= evs(v@).subrange(from as int, v.len() as int));
    r
}

/// Copies a sequence of variable assignments.
pub fn copy_triples(v: &Vec<(u64, u64, Exp)>) -> (r: Vec<(u64, u64, Exp)>)
    ensures
        evts(r@) == evts(v@),
    decreases v,
{
    broadcast use lemma_evts;
    let mut r: Vec<(u64, u64, Exp)> = Vec::new();
    let mut i: usize = 0;
    while i < v.len()
        invariant
            i <= v.len(),
            r@.len() == i,
            forall|k: int|
                0 <= k < i ==> (#[trigger] r@[k]).0 == v@[k].0 && r@[k].1 == v@[k].1
                    && ev(r@[k].2) == ev(v@[k].2),
        decreases v.len() - i,
    {
        assert(decreases_to!(v => v@[i as int].2));
        let t = &v[i];
        r.push((t.0, t.1, copy_exp(&t.2)));
        i += 1;
    }
    assert(evts(r@) =~= evts(v@));
    r
}

/// Structural equality of two expressions.
pub fn exp_eq(a: &Exp, b: &Exp) -> (r: bool)
    ensures
        r == (a@ == b@),
    decreases a,
{
    match (a, b) {
        (Exp::Var(s), Exp::Var(t)) => *s == *t,
        (Exp::Int(n), Exp::Int(m)) => *n == *m,
        (Exp::Str(s), Exp::Str(t)) => *s == *t,
        (Exp::Null, Exp::Null) => true,
        (Exp::Jd(n), Exp::Jd(m)) => *n == *m,
        (Exp::Op(s), Exp::Op(t)) => *s == *t,
        (Exp::Op1(s, a1), Exp::Op1(t, b1)) => *s == *t && exp_eq(a1, b1),
        (Exp::Op2(s, a1, a2), Exp::Op2(t, b1, b2)) => *s == *t && exp_eq(a1, b1) && exp_eq(a2, b2),
        (Exp::Op3(s, a1, a2, a3), Exp::Op3(t, b1, b2, b3)) => *s == *t && exp_eq(a1, b1) && exp_eq(
            a2,
            b2,
        ) && exp_eq(a3, b3),
        (Exp::Op4(s, a1, a2, a3, a4), Exp::Op4(t, b1, b2, b3, b4)) => *s == *t && exp_eq(a1, b1)
            && exp_eq(a2, b2) && exp_eq(a3, b3) && exp_eq(a4, b4),
        (Exp::OpN(s, a1), Exp::OpN(t, b1)) => *s == *t && exps_eq(a1, b1),
        (Exp::Label(a1, a2), Exp::Label(b1, b2)) => exp_eq(a1, b1) && triples_eq(a2, b2),
        (Exp::If(a1, a2, a3), Exp::If(b1, b2, b3)) => exp_eq(a1, b1) && exps_eq(a2, b2) && exps_eq(
            a3,
            b3,
        ),
        (Exp::While(a1, a2), Exp::While(b1, b2)) => exp_eq(a1, b1) && exps_eq(a2, b2),
        (Exp::Goto(a1, a2), Exp::Goto(b1, b2)) => exp_eq(a1, b1) && triples_eq(a2, b2),
        (Exp::Loop(a1, a2, a3, a4), Exp::Loop(b1, b2, b3, b4)) => exp_eq(a1, b1) && exps_eq(a2, b2)
            && exps_eq(a3, b3) && triples_eq(a4, b4),
        (Exp::Continue, Exp::Continue) => true,
        (Exp::Break, Exp::Break) => true,
        _ => false,
    }
}

/// Element-wise equality of two sequences of expressions.
pub fn exps_eq(a: &Vec<Exp>, b: &Vec<Exp>) -> (r: bool)
    ensures
        r == (evs(a@) == evs(b@)),
    decreases a,
{
    broadcast use lemma_evs;
    if a.len() != b.len() {
        assert(evs(a@).len() != evs(b@).len());
        return false;
    }
    let mut i: usize = 0;
    while i < a.len()
        invariant
            i <= a.len(),
            a.len() == b.len(),
            forall|k: int| 0 <= k < i ==> ev(#[trigger] a@[k]) == ev(b@[k]),
        decreases a.len() - i,
    {
        assert(decreases_to!(a => a@[i as int]));
        if !exp_eq(&a[i], &b[i]) {
            proof {
                lemma_evs(a@);
                lemma_evs(b@);
            }
            assert(evs(a@)[i as int] != evs(b@)[i as int]);
            return false;
        }
        i += 1;
    }
    assert(evs(a@) =~= evs(b@));
    true
}

/// Element-wise equality of two sequences of variable assignments.
pub fn triples_eq(a: &Vec<(u64, u64, Exp)>, b: &Vec<(u64, u64, Exp)>) -> (r: bool)
    ensures
        r == (evts(a@) == evts(b@)),
    decreases a,
{
    broadcast use lemma_evts;
    if a.len() != b.len() {
        assert(evts(a@).len() != evts(b@).len());
        return false;
    }
    let mut i: usize = 0;
    while i < a.len()
        invariant
            i <= a.len(),
            a.len() == b.len(),
            forall|k: int|
                0 <= k < i ==> (#[trigger] a@[k]).0 == b@[k].0 && a@[k].1 == b@[k].1 && ev(a@[k].2)
                    == ev(b@[k].2),
        decreases a.len() - i,
    {
        assert(decreases_to!(a => a@[i as int].2));
        let x = &a[i];
        let y = &b[i];
        if !(x.0 == y.0 && x.1 == y.1 && exp_eq(&x.2, &y.2)) {
            proof {
                lemma_evts(a@);
                lemma_evts(b@);
            }
            assert(evts(a@)[i as int] != evts(b@)[i as int]);
            return false;
        }
        i += 1;
    }
    assert(evts(a@) =~= evts(b@));
    true
}

} // verus!
