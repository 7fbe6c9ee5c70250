//! Cost models that need no dataset statistics, as exact integers: a lower
//! cost means a more selective operator.

use vstd::prelude::*;
use crate::operation::{Join, Operation, Scan};
use crate::optimize::SelectivityError;
use crate::query::{self, Variable, var_same};

verus! {

/// The cost models an evaluation may use.
#[derive(Debug, Clone, Copy, PartialEq, Eq, Structural)]
pub enum Optimizer {
    /// The plan is not reordered.
    Off,
    /// Every estimate is drawn at random.
    Random,
    /// Every estimate is the same.
    Fixed,
    /// Predicate frequencies.
    Arqpf,
    /// Predicate frequencies and the distribution of filtered values.
    Arqpfc,
    /// Predicate frequencies, joins priced by their more selective side.
    Arqpfj,
    /// As the previous, with the distribution of filtered values.
    Arqpfjc,
    /// Variable counting.
    Arqvc,
    /// Variable counting, with joins of two subject-variable patterns on
    /// constant objects priced as cartesian products.
    Arqvcp,
}

/// Which models need the dataset statistics.
pub open spec fn needs_statistics(o: Optimizer) -> bool {
    match o {
        Optimizer::Arqpf | Optimizer::Arqpfc | Optimizer::Arqpfj | Optimizer::Arqpfjc => true,
        _ => false,
    }
}

/// Variable counting on a scan, in 32nds: a bound subject weighs 1/4, a
/// bound predicate 3/4, a bound object 1/2, a variable 1.
pub open spec fn vc_scan(sc: Scan) -> nat {
    let s: nat = match sc.subject {
        query::Subject::I(_) => 1,
        query::Subject::V(_) => 4,
    };
    let p: nat = match sc.predicate {
        query::Predicate::I(_) => 3,
        query::Predicate::V(_) => 4,
    };
    let o: nat = match sc.object {
        query::Object::V(_) => 2,
        _ => 1,
    };
    s * p * o
}

pub open spec fn subject_var(sc: Scan) -> Option<Variable> {
    match sc.subject {
        query::Subject::V(v) => Some(v),
        _ => None,
    }
}

pub open spec fn predicate_var(sc: Scan) -> Option<Variable> {
    match sc.predicate {
        query::Predicate::V(v) => Some(v),
        _ => None,
    }
}

pub open spec fn object_var(sc: Scan) -> Option<Variable> {
    match sc.object {
        query::Object::V(v) => Some(v),
        _ => None,
    }
}

pub open spec fn same_var(a: Option<Variable>, b: Option<Variable>) -> bool {
    match (a, b) {
        (Some(x), Some(y)) => var_same(x, y),
        _ => false,
    }
}

/// The weight of a join of two scans, in quarters, by the positions of the
/// variable they share: subject and predicate 1, subject and subject 2,
/// subject and object or object and object 3, none of these 4; the least
/// that applies.
pub open spec fn vc_join_weight(l: Scan, r: Scan) -> nat {
    if same_var(subject_var(l), predicate_var(r)) || same_var(predicate_var(l), subject_var(r)) {
        1
    } else if same_var(subject_var(l), subject_var(r)) {
        2
    } else if same_var(object_var(l), object_var(r)) || same_var(subject_var(l), object_var(r)) || same_var(
        object_var(l),
        subject_var(r),
    ) {
        3
    } else {
        4
    }
}

/// Variable counting on a join of two scans, in 4096ths.
pub open spec fn vc_join(l: Scan, r: Scan) -> nat {
    vc_join_weight(l, r) * vc_scan(l) * vc_scan(r)
}

/// Whether both scans have a variable subject and a constant object.
pub open spec fn constant_objects(l: Scan, r: Scan) -> bool {
    subject_var(l) is Some && subject_var(r) is Some && object_var(l) is None && object_var(r) is None
}

fn opt_same(a: Option<&Variable>, b: Option<&Variable>) -> (r: bool)
    ensures
        r == match (a, b) {
            (Some(x), Some(y)) => var_same(*x, *y),
            _ => false,
        },
{
    match (a, b) {
        (Some(x), Some(y)) => x.same_as(y),
        _ => false,
    }
}

fn subject_var_of(sc: &Scan) -> (r: Option<&Variable>)
    ensures
        match (r, subject_var(*sc)) {
            (Some(x), Some(y)) => *x == y,
            (None, None) => true,
            _ => false,
        },
{
    match &sc.subject {
        query::Subject::V(v) => Some(v),
        _ => None,
    }
}

fn predicate_var_of(sc: &Scan) -> (r: Option<&Variable>)
    ensures
        match (r, predicate_var(*sc)) {
            (Some(x), Some(y)) => *x == y,
            (None, None) => true,
            _ => false,
        },
{
    match &sc.predicate {
        query::Predicate::V(v) => Some(v),
        _ => None,
    }
}

fn object_var_of(sc: &Scan) -> (r: Option<&Variable>)
    ensures
        match (r, object_var(*sc)) {
            (Some(x), Some(y)) => *x == y,
            (None, None) => true,
            _ => false,
        },
{
    match &sc.object {
        query::Object::V(v) => Some(v),
        _ => None,
    }
}

/// Variable counting on a scan, in 32nds.
pub fn vc_scan_cost(sc: &Scan) -> (r: u64)
    ensures
        r == vc_scan(*sc),
        1 <= r <= 32,
{
    let s: u64 = match sc.subject {
        query::Subject::I(_) => 1,
        query::Subject::V(_) => 4,
    };
    let p: u64 = match sc.predicate {
        query::Predicate::I(_) => 3,
        query::Predicate::V(_) => 4,
    };
    let o: u64 = match sc.object {
        query::Object::V(_) => 2,
        _ => 1,
    };
    s * p * o
}

fn vc_weight(l: &Scan, r: &Scan) -> (w: u64)
    ensures
        w == vc_join_weight(*l, *r),
        1 <= w <= 4,
{
    if opt_same(subject_var_of(l), predicate_var_of(r)) || opt_same(predicate_var_of(l), subject_var_of(r)) {
        1
    } else if opt_same(subject_var_of(l), subject_var_of(r)) {
        2
    } else if opt_same(object_var_of(l), object_var_of(r)) || opt_same(subject_var_of(l), object_var_of(r))
        || opt_same(object_var_of(l), subject_var_of(r)) {
        3
    } else {
        4
    }
}

/// The two scans of a join of scans.
pub open spec fn scan_pair(j: Join) -> Option<(Scan, Scan)> {
    match (*j.left, *j.right) {
        (Operation::Scan(l), Operation::Scan(r)) => Some((l, r)),
        _ => None,
    }
}

/// Variable counting on a join of two scans, in 4096ths; a join of other
/// operators has no estimate.
pub fn vc_join_cost(j: &Join) -> (r: Result<u64, SelectivityError>)
    ensures
        r matches Ok(c) ==> scan_pair(*j) matches Some((l, rs)) && c == vc_join(l, rs),
        r is Err ==> scan_pair(*j) is None && r == Err::<u64, SelectivityError>(SelectivityError::NoSelectivityForJoin),
{
    match (&*j.left, &*j.right) {
        (Operation::Scan(l), Operation::Scan(r)) => {
            let w = vc_weight(l, r);
            let a = vc_scan_cost(l);
            let b = vc_scan_cost(r);
            assert(w * a <= 128) by (nonlinear_arith)
                requires
                    w <= 4,
                    a <= 32,
            ;
            assert(w * a * b <= 4096) by (nonlinear_arith)
                requires
                    w * a <= 128,
                    b <= 32,
            ;
            Ok(w * a * b)
        },
        _ => Err(SelectivityError::NoSelectivityForJoin),
    }
}

/// As `vc_join_cost`, but a join of two subject-variable scans on constant
/// objects costs as a cartesian product (4096).
pub fn vcp_join_cost(j: &Join) -> (r: Result<u64, SelectivityError>)
    ensures
        r matches Ok(c) ==> scan_pair(*j) matches Some((l, rs)) && c == (if constant_objects(l, rs) { 4096 } else { vc_join(l, rs) }),
        r is Err ==> scan_pair(*j) is None,
{
    match (&*j.left, &*j.right) {
        (Operation::Scan(l), Operation::Scan(r)) => {
            let cartesian = subject_var_of(l).is_some() && subject_var_of(r).is_some() && object_var_of(l).is_none()
                && object_var_of(r).is_none();
            if cartesian {
                Ok(4096)
            } else {
                vc_join_cost(j)
            }
        },
        _ => Err(SelectivityError::NoSelectivityForJoin),
    }
}

/// Relies on rand::random: a uniformly drawn `u64`; nothing is promised of
/// its value.
#[verifier::external_body]
fn draw() -> (r: u64) {
    rand::random::<u64>()
}

/// The estimate of a scan under a model that needs no statistics. Models
/// that need them, and `Off`, have none here.
pub fn scan_estimate(o: Optimizer, sc: &Scan) -> (r: Result<u64, SelectivityError>)
    ensures
        o == Optimizer::Fixed ==> r == Ok::<u64, SelectivityError>(1),
        o == Optimizer::Random ==> r is Ok,
        (o == Optimizer::Arqvc || o == Optimizer::Arqvcp) ==> r == Ok::<u64, SelectivityError>(vc_scan(*sc) as u64),
        (o == Optimizer::Off || needs_statistics(o)) ==> r == Err::<u64, SelectivityError>(SelectivityError::NonConjunctiveStructure),
{
    match o {
        Optimizer::Fixed => Ok(1),
        Optimizer::Random => Ok(draw()),
        Optimizer::Arqvc | Optimizer::Arqvcp => Ok(vc_scan_cost(sc)),
        _ => Err(SelectivityError::NonConjunctiveStructure),
    }
}

/// The estimate of a join under a model that needs no statistics.
pub fn join_estimate(o: Optimizer, j: &Join) -> (r: Result<u64, SelectivityError>)
    ensures
        o == Optimizer::Fixed ==> r == Ok::<u64, SelectivityError>(1),
        o == Optimizer::Random ==> r is Ok,
        o == Optimizer::Arqvc ==> (r matches Ok(c) ==> scan_pair(*j) matches Some((l, rs)) && c == vc_join(l, rs)),
        o == Optimizer::Arqvcp ==> (r matches Ok(c) ==> scan_pair(*j) matches Some((l, rs)) && c == (if constant_objects(l, rs) { 4096 } else { vc_join(l, rs) })),
        (o == Optimizer::Arqvc || o == Optimizer::Arqvcp) ==> (r is Ok <==> scan_pair(*j) is Some),
        (o == Optimizer::Off || needs_statistics(o)) ==> r == Err::<u64, SelectivityError>(SelectivityError::NonConjunctiveStructure),
{
    match o {
        Optimizer::Fixed => Ok(1),
        Optimizer::Random => Ok(draw()),
        Optimizer::Arqvc => vc_join_cost(j),
        Optimizer::Arqvcp => vcp_join_cost(j),
        _ => Err(SelectivityError::NonConjunctiveStructure),
    }
}

} // verus!
