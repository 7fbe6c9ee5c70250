//! Evaluation of a plan against the stored triples, as a sequence of
//! solution mappings.

use vstd::prelude::*;
use crate::database::{self, Database, Object, Triple, opt_obj_eq, opt_object_eq};
use crate::mapping::{Mapping, Row, lookup, row_insert, compatible, satisfies};
use crate::operation::{Operation, Scan};
use crate::query::{self, Condition, Variable};
use crate::term::{iri_eq, literal_eq};

verus! {

/// The bindings of each mapping.
pub open spec fn rows(v: Seq<Mapping>) -> Seq<Row> {
    v.map_values(|m: Mapping| m@)
}

/// The rows of `s` that `f` holds of, in order.
pub open spec fn keep(s: Seq<Row>, f: spec_fn(Row) -> bool) -> Seq<Row>
    decreases s.len(),
{
    if s.len() == 0 {
        s
    } else if f(s.last()) {
        keep(s.drop_last(), f).push(s.last())
    } else {
        keep(s.drop_last(), f)
    }
}

pub open spec fn subject_matches(q: query::Subject, t: database::Subject) -> bool {
    match q {
        query::Subject::I(x) => match t {
            database::Subject::I(y) => iri_eq(x, y),
            database::Subject::B => false,
        },
        query::Subject::V(_) => true,
    }
}

pub open spec fn predicate_matches(q: query::Predicate, t: database::Predicate) -> bool {
    match q {
        query::Predicate::I(x) => match t {
            database::Predicate::I(y) => iri_eq(x, y),
        },
        query::Predicate::V(_) => true,
    }
}

pub open spec fn object_matches(q: query::Object, t: Object) -> bool {
    match q {
        query::Object::L(x) => match t {
            Object::L(y) => literal_eq(x, y),
            _ => false,
        },
        query::Object::I(x) => match t {
            Object::I(y) => iri_eq(x, y),
            _ => false,
        },
        query::Object::V(_) => true,
    }
}

/// Whether a triple matches a pattern: each concrete term equals the triple's.
pub open spec fn triple_matches(sc: Scan, t: Triple) -> bool {
    subject_matches(sc.subject, t.subject) && predicate_matches(sc.predicate, t.predicate)
        && object_matches(sc.object, t.object)
}

pub open spec fn subject_value(s: database::Subject) -> Object {
    match s {
        database::Subject::B => Object::B,
        database::Subject::I(i) => Object::I(i),
    }
}

pub open spec fn predicate_value(p: database::Predicate) -> Object {
    match p {
        database::Predicate::I(i) => Object::I(i),
    }
}

/// The mapping a matching triple yields: each variable of the pattern bound
/// to the triple's term, subject first.
pub open spec fn binding(sc: Scan, t: Triple) -> Row {
    let r1 = match sc.subject {
        query::Subject::V(v) => row_insert(Seq::empty(), v, subject_value(t.subject)),
        _ => Seq::empty(),
    };
    let r2 = match sc.predicate {
        query::Predicate::V(v) => row_insert(r1, v, predicate_value(t.predicate)),
        _ => r1,
    };
    match sc.object {
        query::Object::V(v) => row_insert(r2, v, t.object),
        _ => r2,
    }
}

/// A scan: the bindings of the matching triples, in stored order.
pub open spec fn scan_rows(sc: Scan, ts: Seq<Triple>) -> Seq<Row>
    decreases ts.len(),
{
    if ts.len() == 0 {
        Seq::empty()
    } else if triple_matches(sc, ts.last()) {
        scan_rows(sc, ts.drop_last()).push(binding(sc, ts.last()))
    } else {
        scan_rows(sc, ts.drop_last())
    }
}

/// Whether two mappings carry the same values (or both none) on the join
/// variables.
pub open spec fn agree_on(l: Row, r: Row, jv: Seq<Variable>) -> bool {
    forall|k: int| 0 <= k < jv.len() ==> opt_obj_eq(#[trigger] lookup(l, jv[k]), lookup(r, jv[k]))
}

/// `l` extended with the bindings of `r`, in order: on a shared key the
/// right mapping's value wins.
pub open spec fn merge(r: Row, l: Row) -> Row
    decreases r.len(),
{
    if r.len() == 0 {
        l
    } else {
        row_insert(merge(r.drop_last(), l), r.last().0, r.last().1)
    }
}

/// The merges of `r` with the left mappings that agree with it, the last
/// left mapping first.
pub open spec fn probe(ls: Seq<Row>, r: Row, jv: Seq<Variable>) -> Seq<Row>
    decreases ls.len(),
{
    if ls.len() == 0 {
        Seq::empty()
    } else if agree_on(ls[0], r, jv) {
        probe(ls.drop_first(), r, jv).push(merge(r, ls[0]))
    } else {
        probe(ls.drop_first(), r, jv)
    }
}

/// A join: for each right mapping in order, its merges with the agreeing
/// left mappings.
pub open spec fn join_rows(ls: Seq<Row>, rs: Seq<Row>, jv: Seq<Variable>) -> Seq<Row>
    decreases rs.len(),
{
    if rs.len() == 0 {
        Seq::empty()
    } else {
        join_rows(ls, rs.drop_last(), jv) + probe(ls, rs.last(), jv)
    }
}

/// A difference: the left mappings compatible with no right mapping.
pub open spec fn minus_rows(ls: Seq<Row>, rs: Seq<Row>) -> Seq<Row> {
    keep(ls, |l: Row| forall|j: int| 0 <= j < rs.len() ==> !compatible(l, #[trigger] rs[j]))
}

/// A filter: the mappings that satisfy `c`.
pub open spec fn filter_rows(ls: Seq<Row>, c: Condition) -> Seq<Row> {
    keep(ls, |l: Row| satisfies(l, c))
}

/// A projected mapping: exactly the variables of `vars`, tagged with their
/// positions, each bound to its value or to a blank node.
pub open spec fn project(r: Row, vars: Seq<Variable>) -> Row {
    Seq::new(
        vars.len(),
        |i: int|
            (
                Variable { name: vars[i].name, position: Some(i as usize) },
                match lookup(r, vars[i]) {
                    Some(o) => o,
                    None => Object::B,
                },
            ),
    )
}

pub open spec fn project_rows(ls: Seq<Row>, vars: Seq<Variable>) -> Seq<Row> {
    ls.map_values(|r: Row| project(r, vars))
}

pub open spec fn skip_rows(ls: Seq<Row>, k: usize) -> Seq<Row> {
    if k < ls.len() { ls.subrange(k as int, ls.len() as int) } else { Seq::empty() }
}

pub open spec fn take_rows(ls: Seq<Row>, k: usize) -> Seq<Row> {
    if k < ls.len() { ls.subrange(0, k as int) } else { ls }
}

/// What a plan yields on the stored triples `db`.
pub open spec fn eval(op: Operation, db: Seq<Triple>) -> Seq<Row>
    decreases op,
{
    match op {
        Operation::Scan(sc) => scan_rows(sc, db),
        Operation::Join(j) => join_rows(eval(*j.left, db), eval(*j.right, db), j.join_vars@),
        Operation::LeftJoin(j) => join_rows(eval(*j.left, db), eval(*j.right, db), j.join_vars@)
            + minus_rows(eval(*j.left, db), eval(*j.right, db)),
        Operation::Union(l, r) => eval(*l, db) + eval(*r, db),
        Operation::Minus(l, r) => minus_rows(eval(*l, db), eval(*r, db)),
        Operation::Filter(o, c) => filter_rows(eval(*o, db), c),
        Operation::Projection(o, vars) => project_rows(eval(*o, db), vars@),
        Operation::Offset(o, k) => skip_rows(eval(*o, db), k),
        Operation::Limit(o, k) => take_rows(eval(*o, db), k),
    }
}

proof fn lemma_rows_push(v: Seq<Mapping>, m: Mapping)
    ensures
        rows(v.push(m)) == rows(v).push(m@),
{
    assert(rows(v.push(m)) =~= rows(v).push(m@));
}

fn subject_value_of(s: &database::Subject) -> (r: Object)
    ensures
        r == subject_value(*s),
{
    match s {
        database::Subject::B => Object::B,
        database::Subject::I(i) => Object::I(i.copy()),
    }
}

impl Scan {
    /// Whether a triple matches the pattern.
    pub fn matches(&self, t: &Triple) -> (r: bool)
        ensures
            r == triple_matches(*self, *t),
    {
        let s = match (&self.subject, &t.subject) {
            (query::Subject::I(x), database::Subject::I(y)) => x.same_as(y),
            (query::Subject::I(_), database::Subject::B) => false,
            (query::Subject::V(_), _) => true,
        };
        let p = match (&self.predicate, &t.predicate) {
            (query::Predicate::I(x), database::Predicate::I(y)) => x.same_as(y),
            (query::Predicate::V(_), _) => true,
        };
        let o = match (&self.object, &t.object) {
            (query::Object::L(x), Object::L(y)) => x.same_as(y),
            (query::Object::I(x), Object::I(y)) => x.same_as(y),
            (query::Object::V(_), _) => true,
            _ => false,
        };
        s && p && o
    }

    /// The mapping a triple yields.
    pub fn binding(&self, t: &Triple) -> (r: Mapping)
        ensures
            r@ == binding(*self, *t),
    {
        let mut m = Mapping::new();
        match &self.subject {
            query::Subject::V(v) => m.insert(v.copy(), subject_value_of(&t.subject)),
            _ => {},
        }
        match &self.predicate {
            query::Predicate::V(v) => match &t.predicate {
                database::Predicate::I(i) => m.insert(v.copy(), Object::I(i.copy())),
            },
            _ => {},
        }
        match &self.object {
            query::Object::V(v) => m.insert(v.copy(), t.object.copy()),
            _ => {},
        }
        m
    }

    /// The mappings of the matching triples, in stored order.
    pub fn run(&self, db: &Database) -> (r: Vec<Mapping>)
        ensures
            rows(r@) == scan_rows(*self, db@),
    {
        let ts = db.triples();
        let mut out: Vec<Mapping> = Vec::new();
        let mut i: usize = 0;
        while i < ts.len()
            invariant
                ts@ == db@,
                i <= ts@.len(),
                rows(out@) == scan_rows(*self, ts@.subrange(0, i as int)),
            decreases ts@.len() - i,
        {
            assert(ts@.subrange(0, i + 1).drop_last() =~= ts@.subrange(0, i as int));
            if self.matches(&ts[i]) {
                let m = self.binding(&ts[i]);
                proof { lemma_rows_push(out@, m); }
                out.push(m);
            }
            i = i + 1;
        }
        assert(ts@.subrange(0, ts@.len() as int) =~= ts@);
        out
    }
}

/// Whether `l` and `r` agree on the join variables.
fn agree(l: &Mapping, r: &Mapping, jv: &Vec<Variable>) -> (b: bool)
    ensures
        b == agree_on(l@, r@, jv@),
{
    let mut k: usize = 0;
    while k < jv.len()
        invariant
            k <= jv@.len(),
            forall|j: int| 0 <= j < k ==> opt_obj_eq(#[trigger] lookup(l@, jv@[j]), lookup(r@, jv@[j])),
        decreases jv@.len() - k,
    {
        if !opt_object_eq(&l.get(&jv[k]), &r.get(&jv[k])) {
            return false;
        }
        k = k + 1;
    }
    true
}

/// `l` extended with the bindings of `r`, the right values winning.
pub fn merge_mappings(r: &Mapping, l: &Mapping) -> (m: Mapping)
    ensures
        m@ == merge(r@, l@),
{
    let mut m = l.copy();
    let mut i: usize = 0;
    while i < r.items.len()
        invariant
            i <= r@.len(),
            m@ == merge(r@.subrange(0, i as int), l@),
        decreases r@.len() - i,
    {
        assert(r@.subrange(0, i + 1).drop_last() =~= r@.subrange(0, i as int));
        let k = r.items[i].0.copy();
        let o = r.items[i].1.copy();
        m.insert(k, o);
        i = i + 1;
    }
    assert(r@.subrange(0, r@.len() as int) =~= r@);
    m
}

/// The join of two sequences of mappings on `jv`.
pub fn join_mappings(ls: &Vec<Mapping>, rs: &Vec<Mapping>, jv: &Vec<Variable>) -> (out: Vec<Mapping>)
    ensures
        rows(out@) == join_rows(rows(ls@), rows(rs@), jv@),
{
    let ghost lrows = rows(ls@);
    let mut out: Vec<Mapping> = Vec::new();
    let mut i: usize = 0;
    while i < rs.len()
        invariant
            i <= rs@.len(),
            lrows == rows(ls@),
            rows(out@) == join_rows(lrows, rows(rs@.subrange(0, i as int)), jv@),
        decreases rs@.len() - i,
    {
        let ghost before = rows(out@);
        assert(rows(rs@.subrange(0, i + 1)).drop_last() =~= rows(rs@.subrange(0, i as int)));
        assert(rows(rs@.subrange(0, i + 1)).last() == rs@[i as int]@);
        let mut j: usize = ls.len();
        while j > 0
            invariant
                j <= ls@.len(),
                i < rs@.len(),
                lrows == rows(ls@),
                rows(out@) == before + probe(lrows.subrange(j as int, lrows.len() as int), rs@[i as int]@, jv@),
            decreases j,
        {
            j = j - 1;
            let ghost tail = lrows.subrange(j as int, lrows.len() as int);
            assert(tail.drop_first() =~= lrows.subrange(j + 1, lrows.len() as int));
            assert(tail[0] == ls@[j as int]@);
            if agree(&ls[j], &rs[i], jv) {
                let m = merge_mappings(&rs[i], &ls[j]);
                proof { lemma_rows_push(out@, m); }
                out.push(m);
                assert(rows(out@) =~= before + probe(tail, rs@[i as int]@, jv@));
            }
        }
        assert(lrows.subrange(0, lrows.len() as int) =~= lrows);
        i = i + 1;
    }
    assert(rs@.subrange(0, rs@.len() as int) =~= rs@);
    out
}

/// The left mappings compatible with no right mapping.
pub fn minus_mappings(ls: &Vec<Mapping>, rs: &Vec<Mapping>) -> (out: Vec<Mapping>)
    ensures
        rows(out@) == minus_rows(rows(ls@), rows(rs@)),
{
    let ghost f = |l: Row| forall|j: int| 0 <= j < rows(rs@).len() ==> !compatible(l, #[trigger] rows(rs@)[j]);
    let mut out: Vec<Mapping> = Vec::new();
    let mut i: usize = 0;
    while i < ls.len()
        invariant
            i <= ls@.len(),
            f == (|l: Row| forall|j: int| 0 <= j < rows(rs@).len() ==> !compatible(l, #[trigger] rows(rs@)[j])),
            rows(out@) == keep(rows(ls@.subrange(0, i as int)), f),
        decreases ls@.len() - i,
    {
        assert(rows(ls@.subrange(0, i + 1)).drop_last() =~= rows(ls@.subrange(0, i as int)));
        assert(rows(ls@.subrange(0, i + 1)).last() == ls@[i as int]@);
        let mut keep_it = true;
        let mut j: usize = 0;
        while j < rs.len()
            invariant
                j <= rs@.len(),
                i < ls@.len(),
                keep_it == forall|k: int| 0 <= k < j ==> !compatible(ls@[i as int]@, #[trigger] rows(rs@)[k]),
            decreases rs@.len() - j,
        {
            if ls[i].compatible(&rs[j]) {
                keep_it = false;
            }
            assert(rows(rs@)[j as int] == rs@[j as int]@);
            j = j + 1;
        }
        if keep_it {
            let m = ls[i].copy();
            proof { lemma_rows_push(out@, m); }
            out.push(m);
        }
        i = i + 1;
    }
    assert(ls@.subrange(0, ls@.len() as int) =~= ls@);
    out
}

/// The mappings that satisfy `c`.
pub fn filter_mappings(ls: Vec<Mapping>, c: &Condition) -> (out: Vec<Mapping>)
    ensures
        rows(out@) == filter_rows(rows(ls@), *c),
{
    let ghost f = |l: Row| satisfies(l, *c);
    let mut out: Vec<Mapping> = Vec::new();
    let mut i: usize = 0;
    while i < ls.len()
        invariant
            i <= ls@.len(),
            f == (|l: Row| satisfies(l, *c)),
            rows(out@) == keep(rows(ls@.subrange(0, i as int)), f),
        decreases ls@.len() - i,
    {
        assert(rows(ls@.subrange(0, i + 1)).drop_last() =~= rows(ls@.subrange(0, i as int)));
        assert(rows(ls@.subrange(0, i + 1)).last() == ls@[i as int]@);
        if ls[i].satisfies(c) {
            let m = ls[i].copy();
            proof { lemma_rows_push(out@, m); }
            out.push(m);
        }
        i = i + 1;
    }
    assert(ls@.subrange(0, ls@.len() as int) =~= ls@);
    out
}

/// The projection of one mapping onto `vars`.
pub fn project_mapping(m: &Mapping, vars: &Vec<Variable>) -> (r: Mapping)
    ensures
        r@ == project(m@, vars@),
{
    let mut items: Vec<(Variable, Object)> = Vec::new();
    let mut i: usize = 0;
    while i < vars.len()
        invariant
            i <= vars@.len(),
            items@ == project(m@, vars@).subrange(0, i as int),
        decreases vars@.len() - i,
    {
        let key = vars[i].copy().set_pos(i);
        let value = match m.get(&vars[i]) {
            Some(o) => o,
            None => Object::B,
        };
        items.push((key, value));
        assert(items@ =~= project(m@, vars@).subrange(0, i + 1));
        i = i + 1;
    }
    assert(items@ =~= project(m@, vars@));
    Mapping { items }
}

pub fn project_mappings(ls: Vec<Mapping>, vars: &Vec<Variable>) -> (out: Vec<Mapping>)
    ensures
        rows(out@) == project_rows(rows(ls@), vars@),
{
    let mut out: Vec<Mapping> = Vec::new();
    let mut i: usize = 0;
    while i < ls.len()
        invariant
            i <= ls@.len(),
            rows(out@) == project_rows(rows(ls@), vars@).subrange(0, i as int),
        decreases ls@.len() - i,
    {
        let m = project_mapping(&ls[i], vars);
        proof { lemma_rows_push(out@, m); }
        out.push(m);
        assert(rows(out@) =~= project_rows(rows(ls@), vars@).subrange(0, i + 1));
        i = i + 1;
    }
    assert(rows(out@) =~= project_rows(rows(ls@), vars@));
    out
}

/// All but the first `k` mappings.
pub fn skip_mappings(ls: Vec<Mapping>, k: usize) -> (out: Vec<Mapping>)
    ensures
        rows(out@) == skip_rows(rows(ls@), k),
{
    let mut out: Vec<Mapping> = Vec::new();
    let mut i: usize = k;
    if k >= ls.len() {
        return out;
    }
    while i < ls.len()
        invariant
            k <= i <= ls@.len(),
            k < ls@.len(),
            rows(out@) == rows(ls@).subrange(k as int, i as int),
        decreases ls@.len() - i,
    {
        let m = ls[i].copy();
        proof { lemma_rows_push(out@, m); }
        out.push(m);
        assert(rows(out@) =~= rows(ls@).subrange(k as int, i + 1));
        i = i + 1;
    }
    out
}

/// The first `k` mappings.
pub fn take_mappings(ls: Vec<Mapping>, k: usize) -> (out: Vec<Mapping>)
    ensures
        rows(out@) == take_rows(rows(ls@), k),
{
    let ghost orig = ls@;
    let mut ls = ls;
    if k < ls.len() {
        ls.truncate(k);
        assert(rows(ls@) =~= take_rows(rows(orig), k));
    }
    ls
}

impl Operation {
    /// Runs the plan on `db` and collects every mapping it yields.
    pub fn run(&self, db: &Database) -> (r: Vec<Mapping>)
        ensures
            rows(r@) == eval(*self, db@),
        decreases self,
    {
        match self {
            Operation::Scan(sc) => sc.run(db),
            Operation::Join(j) => join_mappings(&j.left.run(db), &j.right.run(db), &j.join_vars),
            Operation::LeftJoin(j) => {
                let l = j.left.run(db);
                let r = j.right.run(db);
                let mut joined = join_mappings(&l, &r, &j.join_vars);
                let mut rest = minus_mappings(&l, &r);
                let ghost a = joined@;
                let ghost b = rest@;
                joined.append(&mut rest);
                assert(rows(joined@) =~= rows(a) + rows(b));
                joined
            },
            Operation::Union(l, r) => {
                let mut a = l.run(db);
                let mut b = r.run(db);
                let ghost x = a@;
                let ghost y = b@;
                a.append(&mut b);
                assert(rows(a@) =~= rows(x) + rows(y));
                a
            },
            Operation::Minus(l, r) => minus_mappings(&l.run(db), &r.run(db)),
            Operation::Filter(o, c) => filter_mappings(o.run(db), c),
            Operation::Projection(o, vars) => project_mappings(o.run(db), vars),
            Operation::Offset(o, k) => skip_mappings(o.run(db), *k),
            Operation::Limit(o, k) => take_mappings(o.run(db), *k),
        }
    }
}

} // verus!
