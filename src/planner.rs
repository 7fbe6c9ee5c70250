//! Prefix expansion of a query and its lowering into an initial plan.

use vstd::prelude::*;
use vstd::string::*;
use crate::condition::{normalize, normalize_condition};
use crate::operation::{Join, Operation, Scan, bound_vars, var_inter};
use crate::query::{self, Condition, Expression, Query, QueryType, SolutionModifier, Variables, copy_vars};
use crate::term::{Iri, PrefixedName};
use crate::text::{remove_char, without_char};

verus! {

/// Prefix expansion fails on a prefix the prologue does not declare.
#[derive(Debug)]
pub enum ExpandError {
    PrefixNotFound(String),
}

/// The IRI reference the prologue declares for `ns`: the first declaration.
pub open spec fn prefix_lookup(p: Seq<(String, String)>, ns: Seq<char>) -> Option<Seq<char>>
    decreases p.len(),
{
    if p.len() == 0 {
        None
    } else if p[0].0@ == ns {
        Some(p[0].1@)
    } else {
        prefix_lookup(p.drop_first(), ns)
    }
}

pub open spec fn is_blank_prefix(ns: Seq<char>) -> bool {
    ns == seq!['_']
}

/// Whether every prefixed name in `i` is declared (or blank).
pub open spec fn iri_resolves(i: Iri, p: Seq<(String, String)>) -> bool {
    match i {
        Iri::IRIREF(_) => true,
        Iri::PrefixedName(n) => is_blank_prefix(n.ns@) || prefix_lookup(p, n.ns@) is Some,
    }
}

/// `j` is `i` expanded under `p`: an absolute reference and a blank-node name
/// stay as they are; a prefixed name keeps its parts and gains as its
/// expansion the declared reference without `>`, the local part, and `>`.
pub open spec fn iri_expanded(i: Iri, p: Seq<(String, String)>, j: Iri) -> bool {
    match i {
        Iri::IRIREF(_) => j == i,
        Iri::PrefixedName(n) => if is_blank_prefix(n.ns@) {
            j == i
        } else {
            match (prefix_lookup(p, n.ns@), j) {
                (Some(e), Iri::PrefixedName(m)) => m.ns == n.ns && m.local == n.local && (m.expanded matches Some(x)
                    && x@ == without_char(e, '>') + n.local@ + seq!['>']),
                _ => false,
            }
        },
    }
}

pub open spec fn subject_resolves(s: query::Subject, p: Seq<(String, String)>) -> bool {
    match s {
        query::Subject::I(i) => iri_resolves(i, p),
        query::Subject::V(_) => true,
    }
}

pub open spec fn predicate_resolves(s: query::Predicate, p: Seq<(String, String)>) -> bool {
    match s {
        query::Predicate::I(i) => iri_resolves(i, p),
        query::Predicate::V(_) => true,
    }
}

pub open spec fn object_resolves(s: query::Object, p: Seq<(String, String)>) -> bool {
    match s {
        query::Object::I(i) => iri_resolves(i, p),
        _ => true,
    }
}

pub open spec fn subject_expanded(s: query::Subject, p: Seq<(String, String)>, t: query::Subject) -> bool {
    match (s, t) {
        (query::Subject::I(i), query::Subject::I(j)) => iri_expanded(i, p, j),
        (query::Subject::V(_), _) => t == s,
        _ => false,
    }
}

pub open spec fn predicate_expanded(s: query::Predicate, p: Seq<(String, String)>, t: query::Predicate) -> bool {
    match (s, t) {
        (query::Predicate::I(i), query::Predicate::I(j)) => iri_expanded(i, p, j),
        (query::Predicate::V(_), _) => t == s,
        _ => false,
    }
}

pub open spec fn object_expanded(s: query::Object, p: Seq<(String, String)>, t: query::Object) -> bool {
    match (s, t) {
        (query::Object::I(i), query::Object::I(j)) => iri_expanded(i, p, j),
        (query::Object::I(_), _) => false,
        _ => t == s,
    }
}

/// Whether every prefixed name in the pattern's triples is declared.
pub open spec fn expression_resolves(e: Expression, p: Seq<(String, String)>) -> bool
    decreases e,
{
    match e {
        Expression::Triple(s, pr, o) => subject_resolves(s, p) && predicate_resolves(pr, p) && object_resolves(o, p),
        Expression::And(a, b) => expression_resolves(*a, p) && expression_resolves(*b, p),
        Expression::Union(a, b) => expression_resolves(*a, p) && expression_resolves(*b, p),
        Expression::Optional(a, b) => expression_resolves(*a, p) && expression_resolves(*b, p),
        Expression::Filter(a, _) => expression_resolves(*a, p),
    }
}

/// `f` is `e` with the IRIs of its triples expanded under `p`; conditions
/// are kept as they are.
pub open spec fn expression_expanded(e: Expression, p: Seq<(String, String)>, f: Expression) -> bool
    decreases e,
{
    match (e, f) {
        (Expression::Triple(s, pr, o), Expression::Triple(s2, pr2, o2)) => subject_expanded(s, p, s2)
            && predicate_expanded(pr, p, pr2) && object_expanded(o, p, o2),
        (Expression::And(a, b), Expression::And(a2, b2)) => expression_expanded(*a, p, *a2) && expression_expanded(*b, p, *b2),
        (Expression::Union(a, b), Expression::Union(a2, b2)) => expression_expanded(*a, p, *a2) && expression_expanded(*b, p, *b2),
        (Expression::Optional(a, b), Expression::Optional(a2, b2)) => expression_expanded(*a, p, *a2)
            && expression_expanded(*b, p, *b2),
        (Expression::Filter(a, c), Expression::Filter(a2, c2)) => expression_expanded(*a, p, *a2) && *c2 == *c,
        _ => false,
    }
}

/// `i` is a prefixed name whose (non-blank) prefix `ns` is not declared.
pub open spec fn iri_undeclared(i: Iri, p: Seq<(String, String)>, ns: Seq<char>) -> bool {
    match i {
        Iri::PrefixedName(n) => n.ns@ == ns && !is_blank_prefix(ns) && prefix_lookup(p, ns) is None,
        _ => false,
    }
}

/// A triple of the pattern holds a prefixed name with the undeclared prefix `ns`.
pub open spec fn expression_undeclared(e: Expression, p: Seq<(String, String)>, ns: Seq<char>) -> bool
    decreases e,
{
    match e {
        Expression::Triple(s, pr, o) => (s matches query::Subject::I(i) && iri_undeclared(i, p, ns)) || (pr matches query::Predicate::I(
            i,
        ) && iri_undeclared(i, p, ns)) || (o matches query::Object::I(i) && iri_undeclared(i, p, ns)),
        Expression::And(a, b) => expression_undeclared(*a, p, ns) || expression_undeclared(*b, p, ns),
        Expression::Union(a, b) => expression_undeclared(*a, p, ns) || expression_undeclared(*b, p, ns),
        Expression::Optional(a, b) => expression_undeclared(*a, p, ns) || expression_undeclared(*b, p, ns),
        Expression::Filter(a, _) => expression_undeclared(*a, p, ns),
    }
}

/// The query's pattern uses the undeclared prefix `ns`.
pub open spec fn query_undeclared(q: Query, ns: Seq<char>) -> bool {
    match q.kind {
        QueryType::SelectQuery(_, e, _) => expression_undeclared(e, q.prologue@, ns),
        QueryType::AskQuery(e, _) => expression_undeclared(e, q.prologue@, ns),
    }
}

pub open spec fn query_resolves(q: Query) -> bool {
    match q.kind {
        QueryType::SelectQuery(_, e, _) => expression_resolves(e, q.prologue@),
        QueryType::AskQuery(e, _) => expression_resolves(e, q.prologue@),
    }
}

/// `r` is `q` with its pattern expanded under its own prologue.
pub open spec fn query_expanded(q: Query, r: Query) -> bool {
    r.prologue@ == q.prologue@ && match (q.kind, r.kind) {
        (QueryType::SelectQuery(v, e, m), QueryType::SelectQuery(v2, e2, m2)) => v2.0@ == v.0@ && m2 == m
            && expression_expanded(e, q.prologue@, e2),
        (QueryType::AskQuery(e, m), QueryType::AskQuery(e2, m2)) => m2 == m && expression_expanded(e, q.prologue@, e2),
        _ => false,
    }
}

fn lookup_prefix(p: &Vec<(String, String)>, ns: &String) -> (r: Option<String>)
    ensures
        r matches Some(e) ==> prefix_lookup(p@, ns@) == Some(e@),
        r is None ==> prefix_lookup(p@, ns@) is None,
{
    let mut i: usize = 0;
    assert(p@.subrange(0, p@.len() as int) =~= p@);
    while i < p.len()
        invariant
            i <= p@.len(),
            prefix_lookup(p@, ns@) == prefix_lookup(p@.subrange(i as int, p@.len() as int), ns@),
        decreases p@.len() - i,
    {
        assert(p@.subrange(i as int, p@.len() as int).drop_first() =~= p@.subrange(i + 1, p@.len() as int));
        if p[i].0 == *ns {
            return Some(p[i].1.clone());
        }
        i = i + 1;
    }
    None
}

impl Iri {
    /// Expands a prefixed name with the prologue `p`.
    pub fn expand(self, p: &Vec<(String, String)>) -> (r: Result<Iri, ExpandError>)
        ensures
            r matches Ok(j) ==> iri_resolves(self, p@) && iri_expanded(self, p@, j),
            r matches Err(ExpandError::PrefixNotFound(ns)) ==> !iri_resolves(self, p@) && (self matches Iri::PrefixedName(
                n,
            ) && n.ns@ == ns@),
            r is Err <==> !iri_resolves(self, p@),
    {
        match self {
            Iri::IRIREF(s) => Ok(Iri::IRIREF(s)),
            Iri::PrefixedName(n) => {
                let blank = n.ns.unicode_len() == 1 && n.ns.get_char(0) == '_';
                assert(blank == is_blank_prefix(n.ns@)) by {
                    if n.ns@.len() == 1 && n.ns@[0] == '_' {
                        assert(n.ns@ =~= seq!['_']);
                    }
                }
                if blank {
                    return Ok(Iri::PrefixedName(n));
                }
                match lookup_prefix(p, &n.ns) {
                    Some(e) => {
                        let stripped = remove_char(e.as_str(), '>');
                        let with_local = stripped.concat(n.local.as_str());
                        let full = with_local.concat(">");
                        proof {
                            reveal_strlit(">");
                            assert(">"@ =~= seq!['>']);
                            assert(full@ == without_char(e@, '>') + n.local@ + seq!['>']);
                        }
                        Ok(Iri::PrefixedName(PrefixedName { ns: n.ns, local: n.local, expanded: Some(full) }))
                    },
                    None => Err(ExpandError::PrefixNotFound(n.ns)),
                }
            },
        }
    }
}

fn expand_subject(s: &query::Subject, p: &Vec<(String, String)>) -> (r: Result<query::Subject, ExpandError>)
    ensures
        r matches Err(ExpandError::PrefixNotFound(ns)) ==> (*s matches query::Subject::I(i) && iri_undeclared(i, p@, ns@)),
        r is Ok <==> subject_resolves(*s, p@),
        r matches Ok(t) ==> subject_expanded(*s, p@, t),
{
    match s {
        query::Subject::I(i) => match i.copy().expand(p) {
            Ok(j) => Ok(query::Subject::I(j)),
            Err(e) => Err(e),
        },
        query::Subject::V(v) => Ok(query::Subject::V(v.copy())),
    }
}

fn expand_predicate(s: &query::Predicate, p: &Vec<(String, String)>) -> (r: Result<query::Predicate, ExpandError>)
    ensures
        r matches Err(ExpandError::PrefixNotFound(ns)) ==> (*s matches query::Predicate::I(i) && iri_undeclared(i, p@, ns@)),
        r is Ok <==> predicate_resolves(*s, p@),
        r matches Ok(t) ==> predicate_expanded(*s, p@, t),
{
    match s {
        query::Predicate::I(i) => match i.copy().expand(p) {
            Ok(j) => Ok(query::Predicate::I(j)),
            Err(e) => Err(e),
        },
        query::Predicate::V(v) => Ok(query::Predicate::V(v.copy())),
    }
}

fn expand_object(s: &query::Object, p: &Vec<(String, String)>) -> (r: Result<query::Object, ExpandError>)
    ensures
        r matches Err(ExpandError::PrefixNotFound(ns)) ==> (*s matches query::Object::I(i) && iri_undeclared(i, p@, ns@)),
        r is Ok <==> object_resolves(*s, p@),
        r matches Ok(t) ==> object_expanded(*s, p@, t),
{
    match s {
        query::Object::I(i) => match i.copy().expand(p) {
            Ok(j) => Ok(query::Object::I(j)),
            Err(e) => Err(e),
        },
        _ => Ok(s.copy()),
    }
}

/// Expands the IRIs of a pattern's triples with the prologue `p`.
pub fn expand_expression(e: &Expression, p: &Vec<(String, String)>) -> (r: Result<Expression, ExpandError>)
    ensures
        r matches Err(ExpandError::PrefixNotFound(ns)) ==> expression_undeclared(*e, p@, ns@),
        r is Ok <==> expression_resolves(*e, p@),
        r matches Ok(f) ==> expression_expanded(*e, p@, f),
    decreases e,
{
    match e {
        Expression::Triple(s, pr, o) => {
            let s2 = match expand_subject(s, p) {
                Ok(x) => x,
                Err(err) => return Err(err),
            };
            let pr2 = match expand_predicate(pr, p) {
                Ok(x) => x,
                Err(err) => return Err(err),
            };
            let o2 = match expand_object(o, p) {
                Ok(x) => x,
                Err(err) => return Err(err),
            };
            Ok(Expression::Triple(s2, pr2, o2))
        },
        Expression::And(a, b) => {
            let a2 = match expand_expression(a, p) {
                Ok(x) => x,
                Err(err) => return Err(err),
            };
            let b2 = match expand_expression(b, p) {
                Ok(x) => x,
                Err(err) => return Err(err),
            };
            Ok(Expression::And(Box::new(a2), Box::new(b2)))
        },
        Expression::Union(a, b) => {
            let a2 = match expand_expression(a, p) {
                Ok(x) => x,
                Err(err) => return Err(err),
            };
            let b2 = match expand_expression(b, p) {
                Ok(x) => x,
                Err(err) => return Err(err),
            };
            Ok(Expression::Union(Box::new(a2), Box::new(b2)))
        },
        Expression::Optional(a, b) => {
            let a2 = match expand_expression(a, p) {
                Ok(x) => x,
                Err(err) => return Err(err),
            };
            let b2 = match expand_expression(b, p) {
                Ok(x) => x,
                Err(err) => return Err(err),
            };
            Ok(Expression::Optional(Box::new(a2), Box::new(b2)))
        },
        Expression::Filter(a, c) => {
            let a2 = match expand_expression(a, p) {
                Ok(x) => x,
                Err(err) => return Err(err),
            };
            Ok(Expression::Filter(Box::new(a2), Box::new((**c).copy())))
        },
    }
}

fn copy_prologue(p: &Vec<(String, String)>) -> (r: Vec<(String, String)>)
    ensures
        r@ == p@,
{
    let mut out: Vec<(String, String)> = Vec::new();
    let mut i: usize = 0;
    while i < p.len()
        invariant
            i <= p@.len(),
            out@ == p@.subrange(0, i as int),
        decreases p@.len() - i,
    {
        out.push((p[i].0.clone(), p[i].1.clone()));
        assert(out@ =~= p@.subrange(0, i + 1));
        i = i + 1;
    }
    assert(out@ =~= p@);
    out
}

pub fn copy_modifier(m: &SolutionModifier) -> (r: SolutionModifier)
    ensures
        r == *m,
{
    SolutionModifier { limit: m.limit, offset: m.offset }
}

impl Query {
    /// The query with every prefixed name expanded with its prologue; fails
    /// on the first undeclared prefix.
    pub fn expand(&self) -> (r: Result<Query, ExpandError>)
        ensures
            r matches Err(ExpandError::PrefixNotFound(ns)) ==> query_undeclared(*self, ns@),
            r is Ok <==> query_resolves(*self),
            r matches Ok(q) ==> query_expanded(*self, q),
    {
        let kind = match &self.kind {
            QueryType::SelectQuery(v, e, m) => match expand_expression(e, &self.prologue) {
                Ok(e2) => QueryType::SelectQuery(v.copy(), e2, copy_modifier(m)),
                Err(err) => return Err(err),
            },
            QueryType::AskQuery(e, m) => match expand_expression(e, &self.prologue) {
                Ok(e2) => QueryType::AskQuery(e2, copy_modifier(m)),
                Err(err) => return Err(err),
            },
        };
        Ok(Query { prologue: copy_prologue(&self.prologue), kind })
    }
}

proof fn lemma_iri_expand_twice(i: Iri, p: Seq<(String, String)>, j: Iri, k: Iri)
    requires
        iri_expanded(i, p, j),
        iri_expanded(j, p, k),
    ensures
        iri_expanded(i, p, k),
{
}

proof fn lemma_expression_expand_twice(e: Expression, p: Seq<(String, String)>, f: Expression, g: Expression)
    requires
        expression_expanded(e, p, f),
        expression_expanded(f, p, g),
    ensures
        expression_expanded(e, p, g),
    decreases e,
{
    match (e, f, g) {
        (Expression::Triple(s, pr, o), Expression::Triple(s2, pr2, o2), Expression::Triple(s3, pr3, o3)) => {
            match (s, s2, s3) {
                (query::Subject::I(a), query::Subject::I(b), query::Subject::I(c)) => lemma_iri_expand_twice(a, p, b, c),
                _ => {},
            }
            match (pr, pr2, pr3) {
                (query::Predicate::I(a), query::Predicate::I(b), query::Predicate::I(c)) => lemma_iri_expand_twice(a, p, b, c),
                _ => {},
            }
            match (o, o2, o3) {
                (query::Object::I(a), query::Object::I(b), query::Object::I(c)) => lemma_iri_expand_twice(a, p, b, c),
                _ => {},
            }
        },
        (Expression::And(a, b), Expression::And(a2, b2), Expression::And(a3, b3)) => {
            lemma_expression_expand_twice(*a, p, *a2, *a3);
            lemma_expression_expand_twice(*b, p, *b2, *b3);
        },
        (Expression::Union(a, b), Expression::Union(a2, b2), Expression::Union(a3, b3)) => {
            lemma_expression_expand_twice(*a, p, *a2, *a3);
            lemma_expression_expand_twice(*b, p, *b2, *b3);
        },
        (Expression::Optional(a, b), Expression::Optional(a2, b2), Expression::Optional(a3, b3)) => {
            lemma_expression_expand_twice(*a, p, *a2, *a3);
            lemma_expression_expand_twice(*b, p, *b2, *b3);
        },
        (Expression::Filter(a, _), Expression::Filter(a2, _), Expression::Filter(a3, _)) => {
            lemma_expression_expand_twice(*a, p, *a2, *a3);
        },
        _ => {},
    }
}

/// Expansion is idempotent: expanding an expanded query again yields an
/// expansion of the first query, with the same prologue, variables and
/// modifier, and every prefixed name expanded exactly as the first time.
pub proof fn lemma_expand_idempotent(q: Query, q1: Query, q2: Query)
    requires
        query_expanded(q, q1),
        query_expanded(q1, q2),
    ensures
        query_expanded(q, q2),
{
    match (q.kind, q1.kind, q2.kind) {
        (QueryType::SelectQuery(_, e, _), QueryType::SelectQuery(_, e1, _), QueryType::SelectQuery(_, e2, _)) => {
            lemma_expression_expand_twice(e, q.prologue@, e1, e2);
        },
        (QueryType::AskQuery(e, _), QueryType::AskQuery(e1, _), QueryType::AskQuery(e2, _)) => {
            lemma_expression_expand_twice(e, q.prologue@, e1, e2);
        },
        _ => {},
    }
}

/// `op` is the initial plan of pattern `e`: a triple becomes a scan, a
/// conjunction a join on the shared variables, a union a union, an OPTIONAL a
/// left join, a FILTER a filter on the normalized condition.
pub open spec fn plans_to(e: Expression, op: Operation) -> bool
    decreases e,
{
    match (e, op) {
        (Expression::Triple(s, p, o), Operation::Scan(sc)) => sc == (Scan { subject: s, predicate: p, object: o }),
        (Expression::And(a, b), Operation::Join(j)) => plans_to(*a, *j.left) && plans_to(*b, *j.right)
            && j.join_vars@ == var_inter(bound_vars(*j.left), bound_vars(*j.right)),
        (Expression::Union(a, b), Operation::Union(l, r)) => plans_to(*a, *l) && plans_to(*b, *r),
        (Expression::Optional(a, b), Operation::LeftJoin(j)) => plans_to(*a, *j.left) && plans_to(*b, *j.right)
            && j.join_vars@ == var_inter(bound_vars(*j.left), bound_vars(*j.right)),
        (Expression::Filter(a, c), Operation::Filter(o, c2)) => plans_to(*a, *o) && c2 == normalize(*c),
        _ => false,
    }
}

/// The plan under the modifiers: LIMIT outermost, then OFFSET.
pub open spec fn strip_modifier(m: SolutionModifier, op: Operation) -> Option<Operation> {
    let inner = match m.limit {
        Some(l) => match op {
            Operation::Limit(o, l2) => if l2 == l { Some(*o) } else { None },
            _ => None,
        },
        None => Some(op),
    };
    match inner {
        Some(x) => match m.offset {
            Some(k) => match x {
                Operation::Offset(o, k2) => if k2 == k { Some(*o) } else { None },
                _ => None,
            },
            None => Some(x),
        },
        None => None,
    }
}

/// `op` is the initial plan of the query: a SELECT projects its variables
/// over the modified plan of its pattern, an ASK is the modified plan.
pub open spec fn plans_query(q: Query, op: Operation) -> bool {
    match q.kind {
        QueryType::SelectQuery(v, e, m) => match op {
            Operation::Projection(o, vars) => vars@ == v.0@ && (strip_modifier(m, *o) matches Some(inner) && plans_to(e, inner)),
            _ => false,
        },
        QueryType::AskQuery(e, m) => strip_modifier(m, op) matches Some(inner) && plans_to(e, inner),
    }
}

/// Lowers a pattern into its initial plan.
pub fn plan_expression(e: &Expression) -> (r: Operation)
    ensures
        plans_to(*e, r),
    decreases e,
{
    match e {
        Expression::Triple(s, p, o) => Operation::Scan(Scan::new(s.copy(), p.copy(), o.copy())),
        Expression::And(a, b) => Operation::Join(Join::new(plan_expression(a), plan_expression(b))),
        Expression::Union(a, b) => Operation::Union(Box::new(plan_expression(a)), Box::new(plan_expression(b))),
        Expression::Optional(a, b) => Operation::LeftJoin(Join::new(plan_expression(a), plan_expression(b))),
        Expression::Filter(a, c) => Operation::Filter(Box::new(plan_expression(a)), normalize_condition(c)),
    }
}

/// Wraps OFFSET, then LIMIT, around a plan.
pub fn apply_modifier(op: Operation, m: &SolutionModifier) -> (r: Operation)
    ensures
        strip_modifier(*m, r) == Some(op),
{
    let mut result = op;
    match m.offset {
        Some(k) => {
            result = Operation::Offset(Box::new(result), k);
        },
        None => {},
    }
    match m.limit {
        Some(l) => {
            result = Operation::Limit(Box::new(result), l);
        },
        None => {},
    }
    result
}

/// The initial plan of a query.
pub fn plan_query(q: &Query) -> (r: Operation)
    ensures
        plans_query(*q, r),
{
    match &q.kind {
        QueryType::SelectQuery(v, e, m) => {
            let inner = apply_modifier(plan_expression(e), m);
            let vars = copy_vars(&v.0);
            Operation::Projection(Box::new(inner), vars)
        },
        QueryType::AskQuery(e, m) => apply_modifier(plan_expression(e), m),
    }
}

} // verus!
