//! The physical plan: a tree of operators, and the variables each binds.

use vstd::prelude::*;
use crate::query::{self, Condition, Variable, var_same, copy_vars};

verus! {

/// A triple pattern matched against the stored triples.
#[derive(Debug, Clone)]
pub struct Scan {
    pub subject: query::Subject,
    pub predicate: query::Predicate,
    pub object: query::Object,
}

/// An equi-join on the variables both sides bind.
#[derive(Debug)]
pub struct Join {
    pub left: Box<Operation>,
    pub right: Box<Operation>,
    pub join_vars: Vec<Variable>,
}

/// A plan node.
#[derive(Debug)]
pub enum Operation {
    Scan(Scan),
    Join(Join),
    /// A left outer join: the join of both sides, then the left mappings that
    /// no right mapping is compatible with.
    LeftJoin(Join),
    Union(Box<Operation>, Box<Operation>),
    Minus(Box<Operation>, Box<Operation>),
    Filter(Box<Operation>, Condition),
    Projection(Box<Operation>, Vec<Variable>),
    Offset(Box<Operation>, usize),
    Limit(Box<Operation>, usize),
}

pub open spec fn has_var(s: Seq<Variable>, v: Variable) -> bool {
    exists|i: int| 0 <= i < s.len() && var_same(#[trigger] s[i], v)
}

/// The elements of `s` that `f` holds of, in order.
pub open spec fn keep_vars(s: Seq<Variable>, f: spec_fn(Variable) -> bool) -> Seq<Variable>
    decreases s.len(),
{
    if s.len() == 0 {
        s
    } else if f(s.last()) {
        keep_vars(s.drop_last(), f).push(s.last())
    } else {
        keep_vars(s.drop_last(), f)
    }
}

/// The variables of `a`, then those of `b` that are not in `a`.
pub open spec fn var_union(a: Seq<Variable>, b: Seq<Variable>) -> Seq<Variable> {
    a + keep_vars(b, |v: Variable| !has_var(a, v))
}

/// The variables of `a` that are also in `b`.
pub open spec fn var_inter(a: Seq<Variable>, b: Seq<Variable>) -> Seq<Variable> {
    keep_vars(a, |v: Variable| has_var(b, v))
}

pub open spec fn add_var(s: Seq<Variable>, v: Variable) -> Seq<Variable> {
    if has_var(s, v) { s } else { s.push(v) }
}

/// The variables a triple pattern names, subject first.
pub open spec fn scan_vars(sc: Scan) -> Seq<Variable> {
    let s1 = match sc.subject {
        query::Subject::V(v) => seq![v],
        _ => Seq::empty(),
    };
    let s2 = match sc.predicate {
        query::Predicate::V(v) => add_var(s1, v),
        _ => s1,
    };
    match sc.object {
        query::Object::V(v) => add_var(s2, v),
        _ => s2,
    }
}

/// The variables an operator binds: a union keeps those both branches bind,
/// a left join or a difference those of its left side, a projection those it
/// keeps.
pub open spec fn bound_vars(op: Operation) -> Seq<Variable>
    decreases op,
{
    match op {
        Operation::Scan(sc) => scan_vars(sc),
        Operation::Join(j) => var_union(bound_vars(*j.left), bound_vars(*j.right)),
        Operation::LeftJoin(j) => bound_vars(*j.left),
        Operation::Union(l, r) => var_inter(bound_vars(*l), bound_vars(*r)),
        Operation::Minus(l, _) => bound_vars(*l),
        Operation::Filter(o, _) => bound_vars(*o),
        Operation::Projection(o, vars) => var_inter(bound_vars(*o), vars@),
        Operation::Offset(o, _) => bound_vars(*o),
        Operation::Limit(o, _) => bound_vars(*o),
    }
}

pub fn contains_var(s: &Vec<Variable>, v: &Variable) -> (r: bool)
    ensures
        r == has_var(s@, *v),
{
    let mut i: usize = 0;
    while i < s.len()
        invariant
            i <= s@.len(),
            forall|j: int| 0 <= j < i ==> !var_same(s@[j], *v),
        decreases s@.len() - i,
    {
        if s[i].same_as(v) {
            return true;
        }
        i = i + 1;
    }
    false
}

/// The variables of `a` that are in `b` (`in_b`) or not in `b` (`!in_b`).
fn select_vars(a: &Vec<Variable>, b: &Vec<Variable>, in_b: bool) -> (r: Vec<Variable>)
    ensures
        in_b ==> r@ == keep_vars(a@, |v: Variable| has_var(b@, v)),
        !in_b ==> r@ == keep_vars(a@, |v: Variable| !has_var(b@, v)),
{
    let ghost f = if in_b { |v: Variable| has_var(b@, v) } else { |v: Variable| !has_var(b@, v) };
    let mut out: Vec<Variable> = Vec::new();
    let mut i: usize = 0;
    while i < a.len()
        invariant
            i <= a@.len(),
            f == (if in_b { |v: Variable| has_var(b@, v) } else { |v: Variable| !has_var(b@, v) }),
            out@ == keep_vars(a@.subrange(0, i as int), f),
        decreases a@.len() - i,
    {
        assert(a@.subrange(0, i + 1).drop_last() =~= a@.subrange(0, i as int));
        if contains_var(b, &a[i]) == in_b {
            out.push(a[i].copy());
        }
        i = i + 1;
    }
    assert(a@.subrange(0, a@.len() as int) =~= a@);
    out
}

pub fn union_vars(a: &Vec<Variable>, b: &Vec<Variable>) -> (r: Vec<Variable>)
    ensures
        r@ == var_union(a@, b@),
{
    let mut out = copy_vars(a);
    let mut extra = select_vars(b, a, false);
    out.append(&mut extra);
    out
}

pub fn inter_vars(a: &Vec<Variable>, b: &Vec<Variable>) -> (r: Vec<Variable>)
    ensures
        r@ == var_inter(a@, b@),
{
    select_vars(a, b, true)
}

fn push_var(s: &mut Vec<Variable>, v: &Variable)
    ensures
        final(s)@ == add_var(old(s)@, *v),
{
    if !contains_var(s, v) {
        s.push(v.copy());
    }
}

impl Scan {
    pub fn new(subject: query::Subject, predicate: query::Predicate, object: query::Object) -> (r: Self)
        ensures
            r == (Scan { subject, predicate, object }),
    {
        Scan { subject, predicate, object }
    }

    pub fn copy(&self) -> (r: Self)
        ensures
            r == *self,
    {
        Scan { subject: self.subject.copy(), predicate: self.predicate.copy(), object: self.object.copy() }
    }

    /// The variables the pattern names.
    pub fn vars(&self) -> (r: Vec<Variable>)
        ensures
            r@ == scan_vars(*self),
    {
        let mut out: Vec<Variable> = Vec::new();
        match &self.subject {
            query::Subject::V(v) => {
                out.push(v.copy());
                assert(out@ =~= seq![*v]);
            },
            _ => {},
        }
        match &self.predicate {
            query::Predicate::V(v) => push_var(&mut out, v),
            _ => {},
        }
        match &self.object {
            query::Object::V(v) => push_var(&mut out, v),
            _ => {},
        }
        out
    }
}

impl Operation {
    /// The variables this operator binds.
    pub fn bound_vars(&self) -> (r: Vec<Variable>)
        ensures
            r@ == bound_vars(*self),
        decreases self,
    {
        match self {
            Operation::Scan(sc) => sc.vars(),
            Operation::Join(j) => union_vars(&j.left.bound_vars(), &j.right.bound_vars()),
            Operation::LeftJoin(j) => j.left.bound_vars(),
            Operation::Union(l, r) => inter_vars(&l.bound_vars(), &r.bound_vars()),
            Operation::Minus(l, _) => l.bound_vars(),
            Operation::Filter(o, _) => o.bound_vars(),
            Operation::Projection(o, vars) => inter_vars(&o.bound_vars(), vars),
            Operation::Offset(o, _) => o.bound_vars(),
            Operation::Limit(o, _) => o.bound_vars(),
        }
    }
}

impl Join {
    /// Joins two plans on the intersection of the variables they bind.
    pub fn new(left: Operation, right: Operation) -> (r: Self)
        ensures
            *r.left == left,
            *r.right == right,
            r.join_vars@ == var_inter(bound_vars(left), bound_vars(right)),
    {
        let join_vars = inter_vars(&left.bound_vars(), &right.bound_vars());
        Join { left: Box::new(left), right: Box::new(right), join_vars }
    }

    pub fn join_vars(&self) -> (r: &Vec<Variable>)
        ensures
            r == self.join_vars,
    {
        &self.join_vars
    }
}

} // verus!
