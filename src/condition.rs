//! Filter conditions: normalization to negation normal form, and the
//! per-variable constraints a condition implies.

use vstd::prelude::*;
use crate::mapping::satisfies;
use crate::query::{self, Condition, Expression, Variable, var_same};
use crate::term::{Iri, Literal};

verus! {

/// `Not(c)`, normalized: negation pushed through `And`/`Or` by De Morgan,
/// double negation removed.
pub open spec fn negate(c: Condition) -> Condition
    decreases c,
{
    match c {
        Condition::Not(x) => normalize(*x),
        Condition::And(a, b) => Condition::Or(Box::new(negate(*a)), Box::new(negate(*b))),
        Condition::Or(a, b) => Condition::And(Box::new(negate(*a)), Box::new(negate(*b))),
        _ => Condition::Not(Box::new(c)),
    }
}

/// The normal form of a condition: `Not` wraps only atoms.
pub open spec fn normalize(c: Condition) -> Condition
    decreases c,
{
    match c {
        Condition::Not(x) => negate(*x),
        Condition::And(a, b) => Condition::And(Box::new(normalize(*a)), Box::new(normalize(*b))),
        Condition::Or(a, b) => Condition::Or(Box::new(normalize(*a)), Box::new(normalize(*b))),
        _ => c,
    }
}

pub open spec fn is_atom(c: Condition) -> bool {
    match c {
        Condition::Equals(_, _) | Condition::LT(_, _) | Condition::GT(_, _) | Condition::Bound(_) => true,
        _ => false,
    }
}

/// Negation normal form: `Not` only directly above an atom.
pub open spec fn is_nnf(c: Condition) -> bool
    decreases c,
{
    match c {
        Condition::Not(x) => is_atom(*x),
        Condition::And(a, b) => is_nnf(*a) && is_nnf(*b),
        Condition::Or(a, b) => is_nnf(*a) && is_nnf(*b),
        _ => true,
    }
}

/// Normalizing yields negation normal form.
pub proof fn lemma_normal_form(c: Condition)
    ensures
        is_nnf(normalize(c)),
        is_nnf(negate(c)),
    decreases c,
{
    match c {
        Condition::Not(x) => {
            lemma_normal_form(*x);
        },
        Condition::And(a, b) => {
            lemma_normal_form(*a);
            lemma_normal_form(*b);
        },
        Condition::Or(a, b) => {
            lemma_normal_form(*a);
            lemma_normal_form(*b);
        },
        _ => {},
    }
}

/// A condition in negation normal form is its own normal form.
pub proof fn lemma_normalize_nnf(c: Condition)
    requires
        is_nnf(c),
    ensures
        normalize(c) == c,
    decreases c,
{
    match c {
        Condition::And(a, b) => {
            lemma_normalize_nnf(*a);
            lemma_normalize_nnf(*b);
            assert(normalize(c) == Condition::And(Box::new(normalize(*a)), Box::new(normalize(*b))));
            assert(Condition::And(Box::new(*a), Box::new(*b)) == c);
        },
        Condition::Or(a, b) => {
            lemma_normalize_nnf(*a);
            lemma_normalize_nnf(*b);
            assert(normalize(c) == Condition::Or(Box::new(normalize(*a)), Box::new(normalize(*b))));
            assert(Condition::Or(Box::new(*a), Box::new(*b)) == c);
        },
        Condition::Not(x) => {
            assert(is_atom(*x));
            assert(normalize(c) == negate(*x));
            assert(negate(*x) == Condition::Not(Box::new(*x)));
        },
        _ => {},
    }
}

/// Normalizing twice is normalizing once.
pub proof fn lemma_normalize_idempotent(c: Condition)
    ensures
        normalize(normalize(c)) == normalize(c),
{
    lemma_normal_form(c);
    lemma_normalize_nnf(normalize(c));
}

/// De Morgan: a negated conjunction normalizes as the disjunction of the
/// negations, and a negated disjunction as the conjunction of the negations.
pub proof fn lemma_de_morgan(a: Condition, b: Condition)
    ensures
        normalize(Condition::Not(Box::new(Condition::And(Box::new(a), Box::new(b))))) == normalize(
            Condition::Or(Box::new(Condition::Not(Box::new(a))), Box::new(Condition::Not(Box::new(b)))),
        ),
        normalize(Condition::Not(Box::new(Condition::Or(Box::new(a), Box::new(b))))) == normalize(
            Condition::And(Box::new(Condition::Not(Box::new(a))), Box::new(Condition::Not(Box::new(b)))),
        ),
{
    let na = Condition::Not(Box::new(a));
    let nb = Condition::Not(Box::new(b));
    assert(normalize(na) == negate(a));
    assert(normalize(nb) == negate(b));
    let and_ab = Condition::And(Box::new(a), Box::new(b));
    let or_ab = Condition::Or(Box::new(a), Box::new(b));
    assert(negate(and_ab) == Condition::Or(Box::new(negate(a)), Box::new(negate(b))));
    assert(negate(or_ab) == Condition::And(Box::new(negate(a)), Box::new(negate(b))));
    assert(normalize(Condition::Not(Box::new(and_ab))) == negate(and_ab));
    assert(normalize(Condition::Not(Box::new(or_ab))) == negate(or_ab));
    assert(normalize(Condition::Or(Box::new(na), Box::new(nb))) == Condition::Or(
        Box::new(normalize(na)),
        Box::new(normalize(nb)),
    ));
    assert(normalize(Condition::And(Box::new(na), Box::new(nb))) == Condition::And(
        Box::new(normalize(na)),
        Box::new(normalize(nb)),
    ));
}

/// Normalizing keeps the meaning of a condition under every mapping.
pub proof fn lemma_normalize_sound(s: crate::mapping::Row, c: Condition)
    ensures
        satisfies(s, normalize(c)) == satisfies(s, c),
        satisfies(s, negate(c)) == !satisfies(s, c),
    decreases c,
{
    match c {
        Condition::Not(x) => {
            lemma_normalize_sound(s, *x);
        },
        Condition::And(a, b) => {
            lemma_normalize_sound(s, *a);
            lemma_normalize_sound(s, *b);
        },
        Condition::Or(a, b) => {
            lemma_normalize_sound(s, *a);
            lemma_normalize_sound(s, *b);
        },
        _ => {},
    }
}

/// The negation of `c` in normal form.
pub fn negate_condition(c: &Condition) -> (r: Condition)
    ensures
        r == negate(*c),
    decreases c,
{
    match c {
        Condition::Not(x) => normalize_condition(x),
        Condition::And(a, b) => Condition::Or(Box::new(negate_condition(a)), Box::new(negate_condition(b))),
        Condition::Or(a, b) => Condition::And(Box::new(negate_condition(a)), Box::new(negate_condition(b))),
        _ => Condition::Not(Box::new(c.copy())),
    }
}

/// Pushes negations down to the atoms.
pub fn normalize_condition(c: &Condition) -> (r: Condition)
    ensures
        r == normalize(*c),
    decreases c,
{
    match c {
        Condition::Not(x) => negate_condition(x),
        Condition::And(a, b) => Condition::And(Box::new(normalize_condition(a)), Box::new(normalize_condition(b))),
        Condition::Or(a, b) => Condition::Or(Box::new(normalize_condition(a)), Box::new(normalize_condition(b))),
        _ => c.copy(),
    }
}

/// A constraint on the values of a variable.
#[derive(Debug, Clone)]
pub enum VariableInfo {
    Lt(Literal),
    Gt(Literal),
    Lte(Literal),
    Gte(Literal),
    EqualsLiteral(Literal),
    EqualsIri(Iri),
    NotEqualsLiteral(Literal),
    NotEqualsIri(Iri),
    Bound,
    UnBound,
}

/// The constraint that holds when `i` does not.
pub open spec fn invert_info(i: VariableInfo) -> VariableInfo {
    match i {
        VariableInfo::Lt(v) => VariableInfo::Gte(v),
        VariableInfo::Gt(v) => VariableInfo::Lte(v),
        VariableInfo::Lte(v) => VariableInfo::Gt(v),
        VariableInfo::Gte(v) => VariableInfo::Lt(v),
        VariableInfo::EqualsLiteral(l) => VariableInfo::NotEqualsLiteral(l),
        VariableInfo::EqualsIri(i) => VariableInfo::NotEqualsIri(i),
        VariableInfo::NotEqualsLiteral(l) => VariableInfo::EqualsLiteral(l),
        VariableInfo::NotEqualsIri(i) => VariableInfo::EqualsIri(i),
        VariableInfo::Bound => VariableInfo::UnBound,
        VariableInfo::UnBound => VariableInfo::Bound,
    }
}

impl VariableInfo {
    pub fn invert(self) -> (r: Self)
        ensures
            r == invert_info(self),
    {
        match self {
            VariableInfo::Lt(v) => VariableInfo::Gte(v),
            VariableInfo::Gt(v) => VariableInfo::Lte(v),
            VariableInfo::Lte(v) => VariableInfo::Gt(v),
            VariableInfo::Gte(v) => VariableInfo::Lt(v),
            VariableInfo::EqualsLiteral(l) => VariableInfo::NotEqualsLiteral(l),
            VariableInfo::EqualsIri(i) => VariableInfo::NotEqualsIri(i),
            VariableInfo::NotEqualsLiteral(l) => VariableInfo::EqualsLiteral(l),
            VariableInfo::NotEqualsIri(i) => VariableInfo::EqualsIri(i),
            VariableInfo::Bound => VariableInfo::UnBound,
            VariableInfo::UnBound => VariableInfo::Bound,
        }
    }

    pub fn copy(&self) -> (r: Self)
        ensures
            r == *self,
    {
        match self {
            VariableInfo::Lt(v) => VariableInfo::Lt(v.copy()),
            VariableInfo::Gt(v) => VariableInfo::Gt(v.copy()),
            VariableInfo::Lte(v) => VariableInfo::Lte(v.copy()),
            VariableInfo::Gte(v) => VariableInfo::Gte(v.copy()),
            VariableInfo::EqualsLiteral(l) => VariableInfo::EqualsLiteral(l.copy()),
            VariableInfo::EqualsIri(i) => VariableInfo::EqualsIri(i.copy()),
            VariableInfo::NotEqualsLiteral(l) => VariableInfo::NotEqualsLiteral(l.copy()),
            VariableInfo::NotEqualsIri(i) => VariableInfo::NotEqualsIri(i.copy()),
            VariableInfo::Bound => VariableInfo::Bound,
            VariableInfo::UnBound => VariableInfo::UnBound,
        }
    }
}

/// A fact of a condition: a constraint on one variable.
pub type Fact = (Variable, VariableInfo);

/// The constraints each variable is under, as facts in the order found.
#[derive(Debug, Clone)]
pub struct ConditionInfo {
    pub facts: Vec<(Variable, VariableInfo)>,
}

impl View for ConditionInfo {
    type V = Seq<Fact>;

    open spec fn view(&self) -> Seq<Fact> {
        self.facts@
    }
}

pub open spec fn invert_facts(s: Seq<Fact>) -> Seq<Fact> {
    s.map_values(|f: Fact| (f.0, invert_info(f.1)))
}

/// What an equality tells of a variable compared with a constant.
pub open spec fn equals_facts(o1: query::Object, o2: query::Object) -> Seq<Fact> {
    let a = match (o1, o2) {
        (query::Object::V(v), query::Object::I(i)) => seq![(v, VariableInfo::EqualsIri(i))],
        (query::Object::V(v), query::Object::L(l)) => seq![(v, VariableInfo::EqualsLiteral(l))],
        _ => Seq::empty(),
    };
    let b = match (o2, o1) {
        (query::Object::V(v), query::Object::I(i)) => seq![(v, VariableInfo::EqualsIri(i))],
        (query::Object::V(v), query::Object::L(l)) => seq![(v, VariableInfo::EqualsLiteral(l))],
        _ => Seq::empty(),
    };
    a + b
}

/// What a comparison of a variable with a literal tells, in either order.
pub open spec fn compare_facts(o1: query::Object, o2: query::Object, lt: bool) -> Seq<Fact> {
    match (o1, o2) {
        (query::Object::V(v), query::Object::L(l)) => seq![(v, if lt { VariableInfo::Lt(l) } else { VariableInfo::Gt(l) })],
        (query::Object::L(l), query::Object::V(v)) => seq![(v, if lt { VariableInfo::Lt(l) } else { VariableInfo::Gt(l) })],
        _ => Seq::empty(),
    }
}

/// The facts a condition implies. A disjunction implies none that can be
/// relied on, so it yields none.
pub open spec fn condition_facts(c: Condition) -> Seq<Fact>
    decreases c,
{
    match c {
        Condition::Equals(a, b) => equals_facts(a, b),
        Condition::LT(a, b) => compare_facts(a, b, true),
        Condition::GT(a, b) => compare_facts(a, b, false),
        Condition::Bound(v) => seq![(v, VariableInfo::Bound)],
        Condition::Not(x) => invert_facts(condition_facts(*x)),
        Condition::And(a, b) => condition_facts(*a) + condition_facts(*b),
        Condition::Or(_, _) => Seq::empty(),
    }
}

/// The facts the filters of a pattern imply: a union and the optional side
/// of an OPTIONAL yield none.
pub open spec fn expression_facts(e: Expression) -> Seq<Fact>
    decreases e,
{
    match e {
        Expression::Triple(_, _, _) => Seq::empty(),
        Expression::And(a, b) => expression_facts(*a) + expression_facts(*b),
        Expression::Union(_, _) => Seq::empty(),
        Expression::Optional(a, _) => expression_facts(*a),
        Expression::Filter(_, c) => condition_facts(*c),
    }
}

fn push_equals(out: &mut Vec<Fact>, v: &query::Object, k: &query::Object)
    ensures
        final(out)@ == old(out)@ + match (*v, *k) {
            (query::Object::V(x), query::Object::I(i)) => seq![(x, VariableInfo::EqualsIri(i))],
            (query::Object::V(x), query::Object::L(l)) => seq![(x, VariableInfo::EqualsLiteral(l))],
            _ => Seq::<Fact>::empty(),
        },
{
    match (v, k) {
        (query::Object::V(x), query::Object::I(i)) => {
            out.push((x.copy(), VariableInfo::EqualsIri(i.copy())));
        },
        (query::Object::V(x), query::Object::L(l)) => {
            out.push((x.copy(), VariableInfo::EqualsLiteral(l.copy())));
        },
        _ => {},
    }
    assert(final(out)@ =~= old(out)@ + match (*v, *k) {
        (query::Object::V(x), query::Object::I(i)) => seq![(x, VariableInfo::EqualsIri(i))],
        (query::Object::V(x), query::Object::L(l)) => seq![(x, VariableInfo::EqualsLiteral(l))],
        _ => Seq::<Fact>::empty(),
    });
}

fn compare_facts_exec(o1: &query::Object, o2: &query::Object, lt: bool) -> (r: Vec<Fact>)
    ensures
        r@ == compare_facts(*o1, *o2, lt),
{
    let mut out: Vec<Fact> = Vec::new();
    match (o1, o2) {
        (query::Object::V(v), query::Object::L(l)) | (query::Object::L(l), query::Object::V(v)) => {
            let info = if lt { VariableInfo::Lt(l.copy()) } else { VariableInfo::Gt(l.copy()) };
            out.push((v.copy(), info));
        },
        _ => {},
    }
    assert(out@ =~= compare_facts(*o1, *o2, lt));
    out
}

impl ConditionInfo {
    pub fn new() -> (r: Self)
        ensures
            r@ == Seq::<Fact>::empty(),
    {
        ConditionInfo { facts: Vec::new() }
    }

    /// The facts of both.
    pub fn union(self, other: ConditionInfo) -> (r: Self)
        ensures
            r@ == self@ + other@,
    {
        let mut facts = self.facts;
        let mut more = other.facts;
        facts.append(&mut more);
        ConditionInfo { facts }
    }

    pub fn clone_info(&self) -> (r: Self)
        ensures
            r@ == self@,
    {
        let mut facts: Vec<Fact> = Vec::new();
        let mut i: usize = 0;
        while i < self.facts.len()
            invariant
                i <= self@.len(),
                facts@ == self@.subrange(0, i as int),
            decreases self@.len() - i,
        {
            facts.push((self.facts[i].0.copy(), self.facts[i].1.copy()));
            assert(facts@ =~= self@.subrange(0, i + 1));
            i = i + 1;
        }
        assert(facts@ =~= self@);
        ConditionInfo { facts }
    }

    /// Each constraint replaced by its inverse.
    pub fn invert(self) -> (r: Self)
        ensures
            r@ == invert_facts(self@),
    {
        let mut out: Vec<Fact> = Vec::new();
        let mut i: usize = 0;
        while i < self.facts.len()
            invariant
                i <= self@.len(),
                out@ == invert_facts(self@).subrange(0, i as int),
            decreases self@.len() - i,
        {
            let v = self.facts[i].0.copy();
            let info = self.facts[i].1.copy().invert();
            out.push((v, info));
            assert(out@ =~= invert_facts(self@).subrange(0, i + 1));
            i = i + 1;
        }
        assert(out@ =~= invert_facts(self@));
        ConditionInfo { facts: out }
    }

    /// The constraints on `var`, in the order found.
    pub fn get(&self, var: &Variable) -> (r: Vec<VariableInfo>)
        ensures
            r@ == infos_of(self@, *var),
    {
        let mut out: Vec<VariableInfo> = Vec::new();
        let mut i: usize = 0;
        while i < self.facts.len()
            invariant
                i <= self@.len(),
                out@ == infos_of(self@.subrange(0, i as int), *var),
            decreases self@.len() - i,
        {
            assert(self@.subrange(0, i + 1).drop_last() =~= self@.subrange(0, i as int));
            if self.facts[i].0.same_as(var) {
                out.push(self.facts[i].1.copy());
            }
            i = i + 1;
        }
        assert(self@.subrange(0, self@.len() as int) =~= self@);
        out
    }

    /// The facts a condition implies.
    pub fn of_condition(c: &Condition) -> (r: Self)
        ensures
            r@ == condition_facts(*c),
        decreases c,
    {
        match c {
            Condition::Equals(a, b) => {
                let mut out: Vec<Fact> = Vec::new();
                push_equals(&mut out, a, b);
                push_equals(&mut out, b, a);
                assert(out@ =~= condition_facts(*c));
                ConditionInfo { facts: out }
            },
            Condition::LT(a, b) => ConditionInfo { facts: compare_facts_exec(a, b, true) },
            Condition::GT(a, b) => ConditionInfo { facts: compare_facts_exec(a, b, false) },
            Condition::Bound(v) => {
                let mut out: Vec<Fact> = Vec::new();
                out.push((v.copy(), VariableInfo::Bound));
                assert(out@ =~= condition_facts(*c));
                ConditionInfo { facts: out }
            },
            Condition::Not(x) => ConditionInfo::of_condition(x).invert(),
            Condition::And(a, b) => ConditionInfo::of_condition(a).union(ConditionInfo::of_condition(b)),
            Condition::Or(_, _) => ConditionInfo::new(),
        }
    }

    /// The facts the filters of a pattern imply.
    pub fn of_expression(e: &Expression) -> (r: Self)
        ensures
            r@ == expression_facts(*e),
        decreases e,
    {
        match e {
            Expression::Triple(_, _, _) => ConditionInfo::new(),
            Expression::And(a, b) => ConditionInfo::of_expression(a).union(ConditionInfo::of_expression(b)),
            Expression::Union(_, _) => ConditionInfo::new(),
            Expression::Optional(a, _) => ConditionInfo::of_expression(a),
            Expression::Filter(_, c) => ConditionInfo::of_condition(c),
        }
    }
}

/// The constraints the facts put on `v`, in order.
pub open spec fn infos_of(s: Seq<Fact>, v: Variable) -> Seq<VariableInfo>
    decreases s.len(),
{
    if s.len() == 0 {
        Seq::empty()
    } else if var_same(s.last().0, v) {
        infos_of(s.drop_last(), v).push(s.last().1)
    } else {
        infos_of(s.drop_last(), v)
    }
}

} // verus!
