//! Enumeration of every join tree of every conjunction of a plan, for
//! comparing the plans a cost model could have chosen.

use vstd::prelude::*;
use itertools::Itertools;
use crate::operation::{Join, Operation, Scan};
use crate::optimize::{count_scans, flatten, is_permutation};
use crate::query::copy_vars;

verus! {

/// Why the plans were not enumerated.
#[derive(Debug, Clone, Copy, PartialEq, Eq, Structural)]
pub enum AllPlansError {
    UnexpectedOperation,
    /// A conjunction has more scans than the enumeration allows.
    TooManyScans(usize),
}

/// The most scans a conjunction may have to be enumerated.
pub const MAX_SCANS: usize = 6;

pub open spec fn factorial(n: nat) -> nat
    decreases n,
{
    if n == 0 { 1 } else { n * factorial((n - 1) as nat) }
}

/// Relies on itertools::Itertools::permutations: `(0..n).permutations(n)`
/// yields every ordering of `0..n`, `n!` of them, each once.
#[verifier::external_body]
fn orderings(n: usize) -> (r: Vec<Vec<usize>>)
    ensures
        r@.len() == factorial(n as nat),
        forall|i: int| 0 <= i < r@.len() ==> is_permutation(#[trigger] r@[i]@, n as nat),
        forall|i: int, j: int| 0 <= i < j < r@.len() ==> r@[i]@ != r@[j]@,
{
    (0..n).permutations(n).collect()
}

impl Operation {
    /// A copy with the same scans, counts and parameters.
    pub fn duplicate(&self) -> (r: Operation)
        ensures
            flatten(r) == flatten(*self),
            count_scans(r) == count_scans(*self),
        decreases self,
    {
        match self {
            Operation::Scan(sc) => Operation::Scan(sc.copy()),
            Operation::Join(j) => Operation::Join(
                Join { left: Box::new(j.left.duplicate()), right: Box::new(j.right.duplicate()), join_vars: copy_vars(&j.join_vars) },
            ),
            Operation::LeftJoin(j) => Operation::LeftJoin(
                Join { left: Box::new(j.left.duplicate()), right: Box::new(j.right.duplicate()), join_vars: copy_vars(&j.join_vars) },
            ),
            Operation::Union(l, r) => Operation::Union(Box::new(l.duplicate()), Box::new(r.duplicate())),
            Operation::Minus(l, r) => Operation::Minus(Box::new(l.duplicate()), Box::new(r.duplicate())),
            Operation::Filter(o, c) => Operation::Filter(Box::new(o.duplicate()), c.copy()),
            Operation::Projection(o, vars) => Operation::Projection(Box::new(o.duplicate()), copy_vars(vars)),
            Operation::Offset(o, k) => Operation::Offset(Box::new(o.duplicate()), *k),
            Operation::Limit(o, k) => Operation::Limit(Box::new(o.duplicate()), *k),
        }
    }
}

/// The number of join trees over `m` leaves in a fixed order (the Catalan
/// number of `m - 1`).
pub open spec fn tree_count(m: nat) -> nat
    decreases m, m,
{
    if m <= 1 {
        1
    } else {
        split_sum(m, (m - 1) as nat)
    }
}

/// The trees over `m` leaves whose left side holds at most `k` of them.
pub open spec fn split_sum(m: nat, k: nat) -> nat
    decreases m, k,
{
    if k == 0 || k >= m {
        0
    } else {
        split_sum(m, (k - 1) as nat) + tree_count(k) * tree_count((m - k) as nat)
    }
}

/// Every join tree whose leaves are `leaves[lo..hi]`, in that order: for
/// each split point, each left tree with each right tree.
fn join_trees(leaves: &Vec<Scan>, lo: usize, hi: usize) -> (r: Vec<Operation>)
    requires
        lo < hi <= leaves@.len(),
        hi - lo <= MAX_SCANS,
    ensures
        r@.len() == tree_count((hi - lo) as nat),
        forall|i: int| 0 <= i < r@.len() ==> flatten(#[trigger] r@[i]) == Some(leaves@.subrange(lo as int, hi as int)),
    decreases hi - lo,
{
    let mut out: Vec<Operation> = Vec::new();
    if hi - lo == 1 {
        out.push(Operation::Scan(leaves[lo].copy()));
        assert(leaves@.subrange(lo as int, hi as int) =~= seq![leaves@[lo as int]]);
        return out;
    }
    let ghost m = (hi - lo) as nat;
    let mut k: usize = lo + 1;
    while k < hi
        invariant
            lo < k <= hi,
            hi <= leaves@.len(),
            hi - lo > 1,
            hi - lo <= MAX_SCANS,
            m == hi - lo,
            out@.len() == split_sum(m, (k - lo - 1) as nat),
            forall|i: int| 0 <= i < out@.len() ==> flatten(#[trigger] out@[i]) == Some(leaves@.subrange(lo as int, hi as int)),
        decreases hi - k,
    {
        let lefts = join_trees(leaves, lo, k);
        let rights = join_trees(leaves, k, hi);
        assert(leaves@.subrange(lo as int, k as int) + leaves@.subrange(k as int, hi as int) =~= leaves@.subrange(lo as int, hi as int));
        let ghost base = out@.len();
        let mut a: usize = 0;
        while a < lefts.len()
            invariant
                lo < k < hi,
                hi <= leaves@.len(),
                forall|i: int| 0 <= i < lefts@.len() ==> flatten(#[trigger] lefts@[i]) == Some(leaves@.subrange(lo as int, k as int)),
                forall|i: int| 0 <= i < rights@.len() ==> flatten(#[trigger] rights@[i]) == Some(leaves@.subrange(k as int, hi as int)),
                a <= lefts@.len(),
                out@.len() == base + a * rights@.len(),
                forall|i: int| 0 <= i < out@.len() ==> flatten(#[trigger] out@[i]) == Some(leaves@.subrange(lo as int, hi as int)),
            decreases lefts@.len() - a,
        {
            let ghost start = out@.len();
            let mut b: usize = 0;
            while b < rights.len()
                invariant
                    a < lefts@.len(),
                    lo < k < hi,
                    hi <= leaves@.len(),
                    forall|i: int| 0 <= i < lefts@.len() ==> flatten(#[trigger] lefts@[i]) == Some(leaves@.subrange(lo as int, k as int)),
                    forall|i: int| 0 <= i < rights@.len() ==> flatten(#[trigger] rights@[i]) == Some(leaves@.subrange(k as int, hi as int)),
                    b <= rights@.len(),
                    out@.len() == start + b,
                    forall|i: int| 0 <= i < out@.len() ==> flatten(#[trigger] out@[i]) == Some(leaves@.subrange(lo as int, hi as int)),
                decreases rights@.len() - b,
            {
                let l = lefts[a].duplicate();
                let r = rights[b].duplicate();
                let j = Operation::Join(Join::new(l, r));
                assert(flatten(j) == Some(leaves@.subrange(lo as int, hi as int)));
                out.push(j);
                b = b + 1;
            }
            assert(base + a * rights@.len() + rights@.len() == base + (a + 1) * rights@.len()) by (nonlinear_arith);
            a = a + 1;
        }
        assert(split_sum(m, (k + 1 - lo - 1) as nat) == split_sum(m, (k - lo - 1) as nat) + tree_count((k - lo) as nat)
            * tree_count((hi - k) as nat));
        k = k + 1;
    }
    assert(tree_count(m) == split_sum(m, (m - 1) as nat));
    out
}

/// The scans of `scans` in the order `perm` gives.
pub open spec fn permuted(scans: Seq<Scan>, perm: Seq<usize>) -> Seq<Scan> {
    perm.map_values(|i: usize| scans[i as int])
}

/// `p` is a join tree over the scans of `s` in some order.
pub open spec fn reorders(p: Operation, s: Seq<Scan>) -> bool {
    exists|perm: Seq<usize>| is_permutation(perm, s.len()) && flatten(p) == Some(#[trigger] permuted(s, perm))
}

/// Every join tree over every ordering of a conjunction's scans.
pub fn bgp_plans(scans: &Vec<Scan>) -> (r: Result<Vec<Operation>, AllPlansError>)
    ensures
        r is Err <==> scans@.len() > MAX_SCANS || scans@.len() == 0,
        scans@.len() > MAX_SCANS ==> r == Err::<Vec<Operation>, AllPlansError>(AllPlansError::TooManyScans(scans@.len() as usize)),
        r matches Ok(ps) ==> forall|i: int| 0 <= i < ps@.len() ==> reorders(#[trigger] ps@[i], scans@),
        r matches Ok(ps) ==> ps@.len() == factorial(scans@.len()) * tree_count(scans@.len()),
{
    let n = scans.len();
    if n > MAX_SCANS {
        return Err(AllPlansError::TooManyScans(n));
    }
    if n == 0 {
        return Err(AllPlansError::UnexpectedOperation);
    }
    let perms = orderings(n);
    let mut out: Vec<Operation> = Vec::new();
    let mut p: usize = 0;
    while p < perms.len()
        invariant
            n == scans@.len(),
            0 < n,
            n <= MAX_SCANS,
            p <= perms@.len(),
            perms@.len() == factorial(n as nat),
            out@.len() == p * tree_count(n as nat),
            forall|i: int| 0 <= i < perms@.len() ==> is_permutation(#[trigger] perms@[i]@, n as nat),
            forall|i: int|
                0 <= i < out@.len() ==> exists|perm: Seq<usize>|
                    is_permutation(perm, n as nat) && flatten(#[trigger] out@[i]) == Some(#[trigger] permuted(scans@, perm)),
        decreases perms@.len() - p,
    {
        let ghost perm = perms@[p as int]@;
        assert(is_permutation(perm, n as nat));
        let mut leaves: Vec<Scan> = Vec::new();
        let mut k: usize = 0;
        while k < n
            invariant
                n == scans@.len(),
                p < perms@.len(),
                perm == perms@[p as int]@,
                is_permutation(perm, n as nat),
                k <= n,
                n <= MAX_SCANS,
                leaves@ == permuted(scans@, perm).subrange(0, k as int),
            decreases n - k,
        {
            let idx = perms[p][k];
            leaves.push(scans[idx].copy());
            assert(leaves@ =~= permuted(scans@, perm).subrange(0, k + 1));
            k = k + 1;
        }
        assert(leaves@ =~= permuted(scans@, perm));
        let mut trees = join_trees(&leaves, 0, n);
        assert(leaves@.subrange(0, n as int) =~= leaves@);
        let ghost before = out@;
        out.append(&mut trees);
        assert(p * tree_count(n as nat) + tree_count(n as nat) == (p + 1) * tree_count(n as nat)) by (nonlinear_arith);
        assert forall|i: int| 0 <= i < out@.len() implies exists|q: Seq<usize>|
            is_permutation(q, n as nat) && flatten(#[trigger] out@[i]) == Some(#[trigger] permuted(scans@, q)) by {
            if i >= before.len() {
                assert(flatten(out@[i]) == Some(permuted(scans@, perm)));
            } else {
                assert(out@[i] == before[i]);
            }
        }
        p = p + 1;
    }
    assert forall|i: int| 0 <= i < out@.len() implies reorders(#[trigger] out@[i], scans@) by {
        let q = choose|q: Seq<usize>| is_permutation(q, n as nat) && flatten(#[trigger] out@[i]) == Some(#[trigger] permuted(scans@, q));
        assert(is_permutation(q, scans@.len()));
    }
    Ok(out)
}

fn wrap_each(plans: &Vec<Operation>, node: &Operation) -> (r: Vec<Operation>)
    ensures
        r@.len() == plans@.len(),
{
    let mut out: Vec<Operation> = Vec::new();
    let mut i: usize = 0;
    while i < plans.len()
        invariant
            i <= plans@.len(),
            out@.len() == i,
        decreases plans@.len() - i,
    {
        let p = plans[i].duplicate();
        let wrapped = match node {
            Operation::Filter(_, c) => Operation::Filter(Box::new(p), c.copy()),
            Operation::Projection(_, vars) => Operation::Projection(Box::new(p), copy_vars(vars)),
            Operation::Offset(_, k) => Operation::Offset(Box::new(p), *k),
            Operation::Limit(_, k) => Operation::Limit(Box::new(p), *k),
            _ => p,
        };
        out.push(wrapped);
        i = i + 1;
    }
    out
}

/// Each pair of a left and a right plan under a binary node of `node`'s kind.
fn pair_each(lefts: &Vec<Operation>, rights: &Vec<Operation>, node: &Operation) -> (r: Vec<Operation>) {
    let mut out: Vec<Operation> = Vec::new();
    let mut a: usize = 0;
    while a < lefts.len()
        decreases lefts@.len() - a,
    {
        let mut b: usize = 0;
        while b < rights.len()
            invariant
                a < lefts@.len(),
            decreases rights@.len() - b,
        {
            let l = lefts[a].duplicate();
            let r = rights[b].duplicate();
            let joined = match node {
                Operation::LeftJoin(_) => Operation::LeftJoin(Join::new(l, r)),
                Operation::Union(_, _) => Operation::Union(Box::new(l), Box::new(r)),
                Operation::Minus(_, _) => Operation::Minus(Box::new(l), Box::new(r)),
                _ => Operation::Join(Join::new(l, r)),
            };
            out.push(joined);
            b = b + 1;
        }
        a = a + 1;
    }
    out
}

/// Every plan that reorders the conjunctions of `op` into any join tree over
/// any ordering of their scans, the rest of the plan kept. Fails when a
/// conjunction has more than `MAX_SCANS` scans.
pub fn all_plans(op: &Operation) -> (r: Result<Vec<Operation>, AllPlansError>)
    ensures
        flatten(*op) matches Some(s) ==> (r is Err <==> s.len() > MAX_SCANS),
        flatten(*op) matches Some(s) ==> (s.len() > MAX_SCANS ==> r == Err::<Vec<Operation>, AllPlansError>(AllPlansError::TooManyScans(s.len() as usize))),
        flatten(*op) matches Some(s) ==> (r matches Ok(ps) ==> ps@.len() == factorial(s.len()) * tree_count(s.len())),
        flatten(*op) matches Some(s) ==> (r matches Ok(ps) ==> forall|i: int| 0 <= i < ps@.len() ==> reorders(#[trigger] ps@[i], s)),
    decreases op,
{
    match flatten_scans_of(op) {
        Some(scans) => {
            let r = bgp_plans(&scans);
            proof {
                let s = flatten(*op).unwrap();
                assert(s == scans@);
            }
            return r;
        },
        None => {},
    }
    match op {
        Operation::Scan(_) => Err(AllPlansError::UnexpectedOperation),
        Operation::Join(j) | Operation::LeftJoin(j) => {
            let lefts = all_plans(&j.left)?;
            let rights = all_plans(&j.right)?;
            Ok(pair_each(&lefts, &rights, op))
        },
        Operation::Union(l, r) | Operation::Minus(l, r) => {
            let lefts = all_plans(l)?;
            let rights = all_plans(r)?;
            Ok(pair_each(&lefts, &rights, op))
        },
        Operation::Filter(o, _) | Operation::Projection(o, _) | Operation::Offset(o, _) | Operation::Limit(o, _) => {
            let inner = all_plans(o)?;
            Ok(wrap_each(&inner, op))
        },
    }
}

fn flatten_scans_of(op: &Operation) -> (r: Option<Vec<Scan>>)
    ensures
        r matches Some(v) ==> flatten(*op) == Some(v@) && v@.len() > 0,
        r is None ==> flatten(*op) is None,
{
    proof { lemma_flatten_nonempty(*op); }
    crate::optimize::flatten_scans(op)
}

proof fn lemma_flatten_nonempty(op: Operation)
    ensures
        flatten(op) matches Some(s) ==> s.len() > 0,
    decreases op,
{
    match op {
        Operation::Join(j) => {
            lemma_flatten_nonempty(*j.left);
            lemma_flatten_nonempty(*j.right);
        },
        _ => {},
    }
}

} // verus!
