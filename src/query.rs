//! The query AST: variables, patterns, filter conditions, modifiers.

use vstd::prelude::*;
use crate::term::{Iri, Literal};

verus! {

/// A query variable, optionally tagged with its position in a projection.
#[derive(Debug, Clone)]
pub struct Variable {
    pub name: String,
    pub position: Option<usize>,
}

/// Identity of variables: same name and same position.
pub open spec fn var_same(a: Variable, b: Variable) -> bool {
    a.name@ == b.name@ && a.position == b.position
}

/// Equality of variables as mapping keys: positions when both have one,
/// names otherwise.
pub open spec fn var_key_eq(a: Variable, b: Variable) -> bool {
    match (a.position, b.position) {
        (Some(p), Some(q)) => p == q,
        _ => a.name@ == b.name@,
    }
}

impl Variable {
    pub fn new(name: String) -> (r: Self)
        ensures
            r.name == name,
            r.position is None,
    {
        Variable { name, position: None }
    }

    /// A copy of the variable tagged with `position`.
    pub fn set_pos(self, position: usize) -> (r: Self)
        ensures
            r.name == self.name,
            r.position == Some(position),
    {
        Variable { name: self.name, position: Some(position) }
    }

    pub fn copy(&self) -> (r: Self)
        ensures
            r == *self,
    {
        Variable { name: self.name.clone(), position: self.position }
    }

    pub fn same_as(&self, other: &Variable) -> (r: bool)
        ensures
            r == var_same(*self, *other),
    {
        self.name == other.name && match (self.position, other.position) {
            (Some(p), Some(q)) => p == q,
            (None, None) => true,
            _ => false,
        }
    }

    pub fn key_eq(&self, other: &Variable) -> (r: bool)
        ensures
            r == var_key_eq(*self, *other),
    {
        match (self.position, other.position) {
            (Some(p), Some(q)) => p == q,
            _ => self.name == other.name,
        }
    }
}

/// An ordered list of distinct variables.
#[derive(Debug, Clone)]
pub struct Variables(pub Vec<Variable>);

/// No variable occurs twice.
pub open spec fn distinct_vars(s: Seq<Variable>) -> bool {
    forall|i: int, j: int| 0 <= i < j < s.len() ==> !var_same(s[i], s[j])
}

impl Variables {
    /// The list must not repeat a variable.
    pub fn new(vars: Vec<Variable>) -> (r: Self)
        requires
            distinct_vars(vars@),
        ensures
            r.0 == vars,
            distinct_vars(r.0@),
    {
        Variables(vars)
    }

    pub fn is_empty(&self) -> (r: bool)
        ensures
            r == (self.0@.len() == 0),
    {
        self.0.len() == 0
    }

    pub fn vars(&self) -> (r: &Vec<Variable>)
        ensures
            r == self.0,
    {
        &self.0
    }

    pub fn copy(&self) -> (r: Self)
        ensures
            r.0@ == self.0@,
    {
        Variables(copy_vars(&self.0))
    }
}

pub fn copy_vars(v: &Vec<Variable>) -> (r: Vec<Variable>)
    ensures
        r@ == v@,
{
    let mut out: Vec<Variable> = Vec::new();
    let mut i: usize = 0;
    while i < v.len()
        invariant
            i <= v@.len(),
            out@ == v@.subrange(0, i as int),
        decreases v@.len() - i,
    {
        out.push(v[i].copy());
        assert(out@ =~= v@.subrange(0, i + 1));
        i = i + 1;
    }
    assert(out@ =~= v@);
    out
}

/// A subject position of a triple pattern.
#[derive(Debug, Clone)]
pub enum Subject {
    I(Iri),
    V(Variable),
}

/// A predicate position of a triple pattern.
#[derive(Debug, Clone)]
pub enum Predicate {
    I(Iri),
    V(Variable),
}

/// An object position of a triple pattern, or an operand of a condition.
#[derive(Debug, Clone)]
pub enum Object {
    L(Literal),
    I(Iri),
    V(Variable),
}

impl Subject {
    pub fn copy(&self) -> (r: Self)
        ensures
            r == *self,
    {
        match self {
            Subject::I(i) => Subject::I(i.copy()),
            Subject::V(v) => Subject::V(v.copy()),
        }
    }
}

impl Predicate {
    pub fn copy(&self) -> (r: Self)
        ensures
            r == *self,
    {
        match self {
            Predicate::I(i) => Predicate::I(i.copy()),
            Predicate::V(v) => Predicate::V(v.copy()),
        }
    }
}

impl Object {
    pub fn copy(&self) -> (r: Self)
        ensures
            r == *self,
    {
        match self {
            Object::L(l) => Object::L(l.copy()),
            Object::I(i) => Object::I(i.copy()),
            Object::V(v) => Object::V(v.copy()),
        }
    }
}

/// A FILTER condition.
#[derive(Debug)]
pub enum Condition {
    Equals(Object, Object),
    LT(Object, Object),
    GT(Object, Object),
    Bound(Variable),
    Not(Box<Condition>),
    And(Box<Condition>, Box<Condition>),
    Or(Box<Condition>, Box<Condition>),
}

impl Condition {
    pub fn copy(&self) -> (r: Self)
        ensures
            r == *self,
        decreases self,
    {
        match self {
            Condition::Equals(a, b) => Condition::Equals(a.copy(), b.copy()),
            Condition::LT(a, b) => Condition::LT(a.copy(), b.copy()),
            Condition::GT(a, b) => Condition::GT(a.copy(), b.copy()),
            Condition::Bound(v) => Condition::Bound(v.copy()),
            Condition::Not(c) => Condition::Not(Box::new((**c).copy())),
            Condition::And(a, b) => Condition::And(Box::new((**a).copy()), Box::new((**b).copy())),
            Condition::Or(a, b) => Condition::Or(Box::new((**a).copy()), Box::new((**b).copy())),
        }
    }
}

/// A graph pattern.
#[derive(Debug)]
pub enum Expression {
    Triple(Subject, Predicate, Object),
    And(Box<Expression>, Box<Expression>),
    Union(Box<Expression>, Box<Expression>),
    Optional(Box<Expression>, Box<Expression>),
    Filter(Box<Expression>, Box<Condition>),
}

/// LIMIT and OFFSET.
#[derive(Debug, Clone)]
pub struct SolutionModifier {
    pub limit: Option<usize>,
    pub offset: Option<usize>,
}

impl SolutionModifier {
    pub fn new() -> (r: Self)
        ensures
            r.limit is None,
            r.offset is None,
    {
        SolutionModifier { limit: None, offset: None }
    }

    pub fn with_limit(&mut self, limit: usize)
        ensures
            final(self).limit == Some(limit),
            final(self).offset == old(self).offset,
    {
        self.limit = Some(limit);
    }

    pub fn with_offset(&mut self, offset: usize)
        ensures
            final(self).offset == Some(offset),
            final(self).limit == old(self).limit,
    {
        self.offset = Some(offset);
    }
}

/// The two kinds of query.
#[derive(Debug)]
pub enum QueryType {
    SelectQuery(Variables, Expression, SolutionModifier),
    AskQuery(Expression, SolutionModifier),
}

/// A query: its prefix declarations (prefix, IRI reference) and its body.
#[derive(Debug)]
pub struct Query {
    pub prologue: Vec<(String, String)>,
    pub kind: QueryType,
}

} // verus!
