//! Plan metrics, filter synthesis, and join reordering driven by cost
//! estimates.

use vstd::prelude::*;
use crate::condition::{ConditionInfo, Fact, VariableInfo, condition_facts, infos_of};
use crate::operation::{Join, Operation, Scan, bound_vars, var_inter};
use crate::query::{self, Condition, Variable};

verus! {

/// Counts of the operators of a plan.
#[derive(Debug, Clone, Copy, PartialEq, Eq, Structural)]
pub struct OperationMeta {
    pub joins: usize,
    pub scans: usize,
    pub filters: usize,
    pub disjunct_joins: usize,
}

/// The number of nodes of a plan.
pub open spec fn node_count(op: Operation) -> nat
    decreases op,
{
    match op {
        Operation::Scan(_) => 1,
        Operation::Join(j) => 1 + node_count(*j.left) + node_count(*j.right),
        Operation::LeftJoin(j) => 1 + node_count(*j.left) + node_count(*j.right),
        Operation::Union(l, r) => 1 + node_count(*l) + node_count(*r),
        Operation::Minus(l, r) => 1 + node_count(*l) + node_count(*r),
        Operation::Filter(o, _) => 1 + node_count(*o),
        Operation::Projection(o, _) => 1 + node_count(*o),
        Operation::Offset(o, _) => 1 + node_count(*o),
        Operation::Limit(o, _) => 1 + node_count(*o),
    }
}

/// The scan leaves of a plan.
pub open spec fn count_scans(op: Operation) -> nat
    decreases op,
{
    match op {
        Operation::Scan(_) => 1,
        Operation::Join(j) => count_scans(*j.left) + count_scans(*j.right),
        Operation::LeftJoin(j) => count_scans(*j.left) + count_scans(*j.right),
        Operation::Union(l, r) => count_scans(*l) + count_scans(*r),
        Operation::Minus(l, r) => count_scans(*l) + count_scans(*r),
        Operation::Filter(o, _) => count_scans(*o),
        Operation::Projection(o, _) => count_scans(*o),
        Operation::Offset(o, _) => count_scans(*o),
        Operation::Limit(o, _) => count_scans(*o),
    }
}

/// The inner joins of a plan (left joins are not counted); with `disjunct`,
/// only those on no shared variable.
pub open spec fn count_joins(op: Operation, disjunct: bool) -> nat
    decreases op,
{
    match op {
        Operation::Scan(_) => 0,
        Operation::Join(j) => (if !disjunct || j.join_vars@.len() == 0 { 1nat } else { 0nat }) + count_joins(*j.left, disjunct)
            + count_joins(*j.right, disjunct),
        Operation::LeftJoin(j) => count_joins(*j.left, disjunct) + count_joins(*j.right, disjunct),
        Operation::Union(l, r) => count_joins(*l, disjunct) + count_joins(*r, disjunct),
        Operation::Minus(l, r) => count_joins(*l, disjunct) + count_joins(*r, disjunct),
        Operation::Filter(o, _) => count_joins(*o, disjunct),
        Operation::Projection(o, _) => count_joins(*o, disjunct),
        Operation::Offset(o, _) => count_joins(*o, disjunct),
        Operation::Limit(o, _) => count_joins(*o, disjunct),
    }
}

/// The filter nodes of a plan.
pub open spec fn count_filters(op: Operation) -> nat
    decreases op,
{
    match op {
        Operation::Scan(_) => 0,
        Operation::Join(j) => count_filters(*j.left) + count_filters(*j.right),
        Operation::LeftJoin(j) => count_filters(*j.left) + count_filters(*j.right),
        Operation::Union(l, r) => count_filters(*l) + count_filters(*r),
        Operation::Minus(l, r) => count_filters(*l) + count_filters(*r),
        Operation::Filter(o, _) => 1 + count_filters(*o),
        Operation::Projection(o, _) => count_filters(*o),
        Operation::Offset(o, _) => count_filters(*o),
        Operation::Limit(o, _) => count_filters(*o),
    }
}

proof fn lemma_counts_bounded(op: Operation)
    ensures
        count_scans(op) + count_joins(op, false) + count_filters(op) <= node_count(op),
        count_joins(op, true) <= count_joins(op, false),
    decreases op,
{
    match op {
        Operation::Scan(_) => {},
        Operation::Join(j) => {
            lemma_counts_bounded(*j.left);
            lemma_counts_bounded(*j.right);
        },
        Operation::LeftJoin(j) => {
            lemma_counts_bounded(*j.left);
            lemma_counts_bounded(*j.right);
        },
        Operation::Union(l, r) => {
            lemma_counts_bounded(*l);
            lemma_counts_bounded(*r);
        },
        Operation::Minus(l, r) => {
            lemma_counts_bounded(*l);
            lemma_counts_bounded(*r);
        },
        Operation::Filter(o, _) => lemma_counts_bounded(*o),
        Operation::Projection(o, _) => lemma_counts_bounded(*o),
        Operation::Offset(o, _) => lemma_counts_bounded(*o),
        Operation::Limit(o, _) => lemma_counts_bounded(*o),
    }
}

impl Operation {
    /// The number of nodes, or `None` when it exceeds `usize`.
    pub fn size(&self) -> (r: Option<usize>)
        ensures
            r matches Some(n) ==> n == node_count(*self),
            r is None ==> node_count(*self) > usize::MAX,
        decreases self,
    {
        let (a, b): (Option<usize>, Option<usize>) = match self {
            Operation::Scan(_) => (Some(0), Some(0)),
            Operation::Join(j) => (j.left.size(), j.right.size()),
            Operation::LeftJoin(j) => (j.left.size(), j.right.size()),
            Operation::Union(l, r) => (l.size(), r.size()),
            Operation::Minus(l, r) => (l.size(), r.size()),
            Operation::Filter(o, _) => (o.size(), Some(0)),
            Operation::Projection(o, _) => (o.size(), Some(0)),
            Operation::Offset(o, _) => (o.size(), Some(0)),
            Operation::Limit(o, _) => (o.size(), Some(0)),
        };
        match (a, b) {
            (Some(x), Some(y)) => {
                if x < usize::MAX - y {
                    Some(x + y + 1)
                } else {
                    None
                }
            },
            _ => None,
        }
    }

    /// Counts the operators of the plan.
    pub fn meta(&self) -> (r: OperationMeta)
        requires
            node_count(*self) <= usize::MAX,
        ensures
            r.scans == count_scans(*self),
            r.joins == count_joins(*self, false),
            r.disjunct_joins == count_joins(*self, true),
            r.filters == count_filters(*self),
        decreases self,
    {
        proof { lemma_counts_bounded(*self); }
        match self {
            Operation::Scan(_) => OperationMeta { joins: 0, scans: 1, filters: 0, disjunct_joins: 0 },
            Operation::Join(j) => {
                proof {
                    lemma_counts_bounded(*j.left);
                    lemma_counts_bounded(*j.right);
                }
                let a = j.left.meta();
                let b = j.right.meta();
                let d: usize = if j.join_vars.len() == 0 { 1 } else { 0 };
                OperationMeta {
                    joins: 1 + a.joins + b.joins,
                    scans: a.scans + b.scans,
                    filters: a.filters + b.filters,
                    disjunct_joins: d + a.disjunct_joins + b.disjunct_joins,
                }
            },
            Operation::LeftJoin(j) => add_meta(j.left.meta(), j.right.meta()),
            Operation::Union(l, r) => add_meta(l.meta(), r.meta()),
            Operation::Minus(l, r) => add_meta(l.meta(), r.meta()),
            Operation::Filter(o, _) => {
                let a = o.meta();
                OperationMeta { filters: a.filters + 1, ..a }
            },
            Operation::Projection(o, _) => o.meta(),
            Operation::Offset(o, _) => o.meta(),
            Operation::Limit(o, _) => o.meta(),
        }
    }
}

fn add_meta(a: OperationMeta, b: OperationMeta) -> (r: OperationMeta)
    requires
        a.joins + b.joins <= usize::MAX,
        a.scans + b.scans <= usize::MAX,
        a.filters + b.filters <= usize::MAX,
        a.disjunct_joins + b.disjunct_joins <= usize::MAX,
    ensures
        r.joins == a.joins + b.joins,
        r.scans == a.scans + b.scans,
        r.filters == a.filters + b.filters,
        r.disjunct_joins == a.disjunct_joins + b.disjunct_joins,
{
    OperationMeta {
        joins: a.joins + b.joins,
        scans: a.scans + b.scans,
        filters: a.filters + b.filters,
        disjunct_joins: a.disjunct_joins + b.disjunct_joins,
    }
}

/// Why a cost estimate is not available.
#[derive(Debug, Clone, Copy, PartialEq, Eq, Structural)]
pub enum SelectivityError {
    NonConjunctiveStructure,
    EncounteredNaNValue,
    NoSelectivityForJoin,
}

/// Why a conjunction of scans was not reordered.
#[derive(Debug, Clone, Copy, PartialEq, Eq, Structural)]
pub enum OptimizerError {
    UnexpectedOperation,
    Selectivity(SelectivityError),
}

/// The scans of a plan made of joins and scans only, left to right.
pub open spec fn flatten(op: Operation) -> Option<Seq<Scan>>
    decreases op,
{
    match op {
        Operation::Scan(sc) => Some(seq![sc]),
        Operation::Join(j) => match (flatten(*j.left), flatten(*j.right)) {
            (Some(a), Some(b)) => Some(a + b),
            _ => None,
        },
        _ => None,
    }
}

proof fn lemma_flatten_counts(op: Operation)
    requires
        flatten(op) is Some,
    ensures
        flatten(op).unwrap().len() == count_scans(op),
    decreases op,
{
    match op {
        Operation::Join(j) => {
            lemma_flatten_counts(*j.left);
            lemma_flatten_counts(*j.right);
        },
        _ => {},
    }
}

/// The scans of a conjunction, if the plan is one.
pub fn flatten_scans(op: &Operation) -> (r: Option<Vec<Scan>>)
    ensures
        r matches Some(v) ==> flatten(*op) == Some(v@),
        r is None ==> flatten(*op) is None,
    decreases op,
{
    match op {
        Operation::Scan(sc) => {
            let mut v: Vec<Scan> = Vec::new();
            v.push(sc.copy());
            assert(v@ =~= seq![*sc]);
            Some(v)
        },
        Operation::Join(j) => match (flatten_scans(&j.left), flatten_scans(&j.right)) {
            (Some(mut a), Some(mut b)) => {
                a.append(&mut b);
                Some(a)
            },
            _ => None,
        },
        _ => None,
    }
}

/// The condition a constraint on `v` stands for.
pub open spec fn info_condition(v: Variable, i: VariableInfo) -> Condition {
    let x = query::Object::V(v);
    match i {
        VariableInfo::Lt(l) => Condition::LT(x, query::Object::L(l)),
        VariableInfo::Gt(l) => Condition::GT(x, query::Object::L(l)),
        VariableInfo::Lte(l) => Condition::Not(Box::new(Condition::GT(x, query::Object::L(l)))),
        VariableInfo::Gte(l) => Condition::Not(Box::new(Condition::LT(x, query::Object::L(l)))),
        VariableInfo::EqualsIri(iri) => Condition::Equals(x, query::Object::I(iri)),
        VariableInfo::EqualsLiteral(l) => Condition::Equals(x, query::Object::L(l)),
        VariableInfo::NotEqualsLiteral(l) => Condition::Not(Box::new(Condition::Equals(x, query::Object::L(l)))),
        VariableInfo::NotEqualsIri(iri) => Condition::Not(Box::new(Condition::Equals(x, query::Object::I(iri)))),
        VariableInfo::Bound => Condition::Bound(v),
        VariableInfo::UnBound => Condition::Not(Box::new(Condition::Bound(v))),
    }
}

fn info_condition_exec(v: &Variable, i: &VariableInfo) -> (r: Condition)
    ensures
        r == info_condition(*v, *i),
{
    let x = query::Object::V(v.copy());
    match i {
        VariableInfo::Lt(l) => Condition::LT(x, query::Object::L(l.copy())),
        VariableInfo::Gt(l) => Condition::GT(x, query::Object::L(l.copy())),
        VariableInfo::Lte(l) => Condition::Not(Box::new(Condition::GT(x, query::Object::L(l.copy())))),
        VariableInfo::Gte(l) => Condition::Not(Box::new(Condition::LT(x, query::Object::L(l.copy())))),
        VariableInfo::EqualsIri(iri) => Condition::Equals(x, query::Object::I(iri.copy())),
        VariableInfo::EqualsLiteral(l) => Condition::Equals(x, query::Object::L(l.copy())),
        VariableInfo::NotEqualsLiteral(l) => Condition::Not(Box::new(Condition::Equals(x, query::Object::L(l.copy())))),
        VariableInfo::NotEqualsIri(iri) => Condition::Not(Box::new(Condition::Equals(x, query::Object::I(iri.copy())))),
        VariableInfo::Bound => Condition::Bound(v.copy()),
        VariableInfo::UnBound => Condition::Not(Box::new(Condition::Bound(v.copy()))),
    }
}

/// The conditions the facts put on each variable of `vars`, in order.
pub open spec fn synthesized(vars: Seq<Variable>, facts: Seq<Fact>) -> Seq<Condition>
    decreases vars.len(),
{
    if vars.len() == 0 {
        Seq::empty()
    } else {
        synthesized(vars.drop_last(), facts) + infos_of(facts, vars.last()).map_values(
            |i: VariableInfo| info_condition(vars.last(), i),
        )
    }
}

/// The conjunction of a non-empty list of conditions, nested to the left.
pub open spec fn conjoin(cs: Seq<Condition>) -> Condition
    decreases cs.len(),
{
    if cs.len() <= 1 {
        cs[0]
    } else {
        Condition::And(Box::new(conjoin(cs.drop_last())), Box::new(cs.last()))
    }
}

/// `op` under a filter of the constraints known on the variables it binds,
/// or `op` itself when none are known.
pub open spec fn with_filters(op: Operation, facts: Seq<Fact>) -> Operation {
    let cs = synthesized(bound_vars(op), facts);
    if cs.len() == 0 {
        op
    } else {
        Operation::Filter(Box::new(op), conjoin(cs))
    }
}

/// Puts a filter of the known constraints above `op`.
pub fn insert_filters(op: Operation, info: &ConditionInfo) -> (r: Operation)
    ensures
        r == with_filters(op, info@),
{
    let vars = op.bound_vars();
    let ghost facts = info@;
    let mut acc: Option<Condition> = None;
    let ghost mut made: Seq<Condition> = Seq::empty();
    let mut i: usize = 0;
    while i < vars.len()
        invariant
            i <= vars@.len(),
            vars@ == bound_vars(op),
            facts == info@,
            made == synthesized(vars@.subrange(0, i as int), facts),
            made.len() == 0 ==> acc is None,
            made.len() > 0 ==> acc == Some(conjoin(made)),
        decreases vars@.len() - i,
    {
        assert(vars@.subrange(0, i + 1).drop_last() =~= vars@.subrange(0, i as int));
        let infos = info.get(&vars[i]);
        let ghost cs = infos@.map_values(|x: VariableInfo| info_condition(vars@[i as int], x));
        let ghost base = made;
        let mut k: usize = 0;
        while k < infos.len()
            invariant
                k <= infos@.len(),
                i < vars@.len(),
                cs == infos@.map_values(|x: VariableInfo| info_condition(vars@[i as int], x)),
                made == base + cs.subrange(0, k as int),
                made.len() == 0 ==> acc is None,
                made.len() > 0 ==> acc == Some(conjoin(made)),
            decreases infos@.len() - k,
        {
            let next = info_condition_exec(&vars[i], &infos[k]);
            let ghost before = made;
            proof {
                made = base + cs.subrange(0, k + 1);
                assert(made =~= before.push(cs[k as int]));
                assert(made.drop_last() =~= before);
            }
            acc = match acc {
                Some(c) => Some(Condition::And(Box::new(c), Box::new(next))),
                None => Some(next),
            };
            k = k + 1;
        }
        assert(cs.subrange(0, infos@.len() as int) =~= cs);
        assert(vars@.subrange(0, i + 1).last() == vars@[i as int]);
        i = i + 1;
    }
    assert(vars@.subrange(0, vars@.len() as int) =~= vars@);
    match acc {
        Some(c) => Operation::Filter(Box::new(op), c),
        None => op,
    }
}

/// A candidate join of two scans of a conjunction (by index), its estimated
/// cost, and whether the two scans share a variable.
#[derive(Debug, Clone, Copy, PartialEq, Eq, Structural)]
pub struct Candidate {
    pub left: usize,
    pub right: usize,
    pub cost: u64,
    pub connected: bool,
}

/// Whether a candidate may be picked: to seed the plan (`mode` 0), to attach
/// its right scan to the plan through a shared variable (1), its left scan
/// likewise (2), or its right scan as a cartesian edge (3).
pub open spec fn eligible(c: Candidate, vis: Seq<bool>, mode: u8) -> bool {
    &&& c.left < vis.len()
    &&& c.right < vis.len()
    &&& c.left != c.right
    &&& match mode {
        0 => c.connected,
        1 => c.connected && vis[c.left as int] && !vis[c.right as int],
        2 => c.connected && vis[c.right as int] && !vis[c.left as int],
        _ => !vis[c.right as int],
    }
}

/// `k` is the cheapest eligible candidate, the earliest among equal costs.
pub open spec fn is_cheapest(cs: Seq<Candidate>, vis: Seq<bool>, mode: u8, k: int) -> bool {
    &&& 0 <= k < cs.len()
    &&& eligible(cs[k], vis, mode)
    &&& forall|j: int|
        0 <= j < cs.len() && eligible(#[trigger] cs[j], vis, mode) ==> cs[k].cost < cs[j].cost || (cs[k].cost
            == cs[j].cost && k <= j)
}

fn is_eligible(c: &Candidate, vis: &Vec<bool>, mode: u8) -> (r: bool)
    ensures
        r == eligible(*c, vis@, mode),
{
    if c.left >= vis.len() || c.right >= vis.len() || c.left == c.right {
        return false;
    }
    match mode {
        0 => c.connected,
        1 => c.connected && vis[c.left] && !vis[c.right],
        2 => c.connected && vis[c.right] && !vis[c.left],
        _ => !vis[c.right],
    }
}

/// The cheapest eligible candidate.
pub fn cheapest(cs: &Vec<Candidate>, vis: &Vec<bool>, mode: u8) -> (r: Option<usize>)
    ensures
        r matches Some(k) ==> is_cheapest(cs@, vis@, mode, k as int),
        r is None ==> forall|j: int| 0 <= j < cs@.len() ==> !eligible(#[trigger] cs@[j], vis@, mode),
{
    let mut best: Option<usize> = None;
    let mut i: usize = 0;
    while i < cs.len()
        invariant
            i <= cs@.len(),
            best matches Some(k) ==> k < i && eligible(cs@[k as int], vis@, mode) && forall|j: int|
                0 <= j < i && eligible(#[trigger] cs@[j], vis@, mode) ==> cs@[k as int].cost < cs@[j].cost || (
                cs@[k as int].cost == cs@[j].cost && k <= j),
            best is None ==> forall|j: int| 0 <= j < i ==> !eligible(#[trigger] cs@[j], vis@, mode),
        decreases cs@.len() - i,
    {
        if is_eligible(&cs[i], vis, mode) {
            match best {
                Some(k) => {
                    if cs[i].cost < cs[k].cost {
                        best = Some(i);
                    }
                },
                None => {
                    best = Some(i);
                },
            }
        }
        i = i + 1;
    }
    best
}

/// The number of unset flags.
pub open spec fn count_unset(s: Seq<bool>) -> nat
    decreases s.len(),
{
    if s.len() == 0 {
        0
    } else {
        count_unset(s.drop_last()) + if s.last() { 0nat } else { 1nat }
    }
}

proof fn lemma_count_unset_update(s: Seq<bool>, i: int)
    requires
        0 <= i < s.len(),
        !s[i],
    ensures
        count_unset(s.update(i, true)) + 1 == count_unset(s),
    decreases s.len(),
{
    if i < s.len() - 1 {
        assert(s.update(i, true).drop_last() =~= s.drop_last().update(i, true));
        lemma_count_unset_update(s.drop_last(), i);
    } else {
        assert(s.update(i, true).drop_last() =~= s.drop_last());
    }
}

proof fn lemma_count_unset_positive(s: Seq<bool>)
    requires
        count_unset(s) > 0,
    ensures
        exists|i: int| 0 <= i < s.len() && !s[i],
    decreases s.len(),
{
    if s.last() {
        lemma_count_unset_positive(s.drop_last());
        let i = choose|i: int| 0 <= i < s.drop_last().len() && !s.drop_last()[i];
        assert(!s[i]);
    } else {
        assert(!s[s.len() - 1]);
    }
}

proof fn lemma_count_unset_all(n: nat)
    ensures
        count_unset(none_placed(n)) == n,
    decreases n,
{
    if n > 0 {
        assert(none_placed(n).drop_last() =~= none_placed((n - 1) as nat));
        lemma_count_unset_all((n - 1) as nat);
    }
}

/// Each of 0..n exactly once.
pub open spec fn is_permutation(order: Seq<usize>, n: nat) -> bool {
    &&& order.len() == n
    &&& forall|k: int| 0 <= k < order.len() ==> order[k] < n
    &&& forall|a: int, b: int| 0 <= a < b < order.len() ==> order[a] != order[b]
}

/// No scan of `0..n` placed yet.
pub open spec fn none_placed(n: nat) -> Seq<bool> {
    Seq::new(n, |i: int| false)
}

/// Which of `0..n` occur in `order`.
pub open spec fn placed(order: Seq<usize>, n: nat) -> Seq<bool> {
    Seq::new(n, |i: int| order.contains(i as usize))
}

/// The seed of a plan: the cheapest candidate that shares a variable, else
/// the cheapest candidate, with the cheaper scan first.
pub open spec fn greedy_seed(cs: Seq<Candidate>, scan_costs: Seq<u64>, vis: Seq<bool>, a: usize, b: usize) -> bool {
    if exists|k: int| is_cheapest(cs, vis, 0, k) {
        seeded_by(cs, scan_costs, vis, 0, a, b)
    } else {
        seeded_by(cs, scan_costs, vis, 3, a, b)
    }
}

/// `(a, b)` is the pair of the cheapest candidate eligible under `mode`,
/// the cheaper scan first.
pub open spec fn seeded_by(cs: Seq<Candidate>, scan_costs: Seq<u64>, vis: Seq<bool>, mode: u8, a: usize, b: usize) -> bool {
    exists|k: int|
        (#[trigger] is_cheapest(cs, vis, mode, k)) && if scan_costs[cs[k].left as int] > scan_costs[cs[k].right as int] {
            a == cs[k].right && b == cs[k].left
        } else {
            a == cs[k].left && b == cs[k].right
        }
}

/// One step of growing a plan, given the placed scans `vis`: the unplaced
/// right scan of the cheapest linking candidate, on the left of the plan;
/// else the unplaced left scan of the cheapest linking candidate, on the
/// right; else the unplaced right scan of the cheapest candidate, on the
/// left; else the first unplaced scan, on the left.
pub open spec fn greedy_step(cs: Seq<Candidate>, vis: Seq<bool>, idx: usize, side: bool) -> bool {
    if exists|k: int| is_cheapest(cs, vis, 1, k) {
        exists|k: int| (#[trigger] is_cheapest(cs, vis, 1, k)) && idx == cs[k].right && side
    } else if exists|k: int| is_cheapest(cs, vis, 2, k) {
        exists|k: int| (#[trigger] is_cheapest(cs, vis, 2, k)) && idx == cs[k].left && !side
    } else if exists|k: int| is_cheapest(cs, vis, 3, k) {
        exists|k: int| (#[trigger] is_cheapest(cs, vis, 3, k)) && idx == cs[k].right && side
    } else {
        idx < vis.len() && !vis[idx as int] && (forall|j: int| 0 <= j < idx ==> vis[j]) && side
    }
}

/// `order` and `sides` are what the greedy rule below chooses over the
/// candidates `cs` and the scan costs.
pub open spec fn greedy_order(cs: Seq<Candidate>, scan_costs: Seq<u64>, n: nat, order: Seq<usize>, sides: Seq<bool>) -> bool {
    &&& is_permutation(order, n)
    &&& sides.len() == n
    &&& greedy_seed(cs, scan_costs, none_placed(n), order[0], order[1])
    &&& forall|t: int| 2 <= t < n ==> greedy_step(cs, placed(order.take(t), n), #[trigger] order[t], sides[t])
}

/// Chooses the order in which the scans enter a plan: the cheapest pair that
/// shares a variable (or the cheapest pair) seeds it, the cheaper scan on the
/// left; then, while scans remain, the cheapest candidate that links a placed
/// scan to an unplaced one through a shared variable adds the unplaced one
/// (on the left of the plan when it is the candidate's right scan, on the
/// right otherwise); failing that, the cheapest candidate whose right scan is
/// unplaced adds it as a cartesian edge. `sides[k]` says whether the scan
/// `order[k]` enters on the left.
pub fn join_order(n: usize, scan_costs: &Vec<u64>, cs: &Vec<Candidate>) -> (r: Option<(Vec<usize>, Vec<bool>)>)
    requires
        n >= 2,
        scan_costs@.len() == n,
    ensures
        r matches Some((order, sides)) ==> greedy_order(cs@, scan_costs@, n as nat, order@, sides@),
        r is None ==> forall|j: int| 0 <= j < cs@.len() ==> !eligible(
            #[trigger] cs@[j],
            none_placed(n as nat),
            3,
        ),
{
    let mut vis: Vec<bool> = Vec::new();
    let mut z: usize = 0;
    while z < n
        invariant
            z <= n,
            vis@ == none_placed(z as nat),
        decreases n - z,
    {
        vis.push(false);
        assert(vis@ =~= none_placed((z + 1) as nat));
        z = z + 1;
    }
    proof { lemma_count_unset_all(n as nat); }
    let ghost vis0 = vis@;
    let ghost mut mode: u8 = 0;
    let seed = match cheapest(cs, &vis, 0) {
        Some(k) => k,
        None => {
            proof { mode = 3; }
            match cheapest(cs, &vis, 3) {
                Some(k) => k,
                None => return None,
            }
        },
    };
    assert(is_cheapest(cs@, vis0, mode, seed as int));
    assert(mode == (if exists|k: int| is_cheapest(cs@, vis0, 0, k) { 0u8 } else { 3u8 })) by {
        if mode == 3 {
            assert forall|k: int| !is_cheapest(cs@, vis0, 0, k) by {
                if 0 <= k < cs@.len() {
                    assert(!eligible(cs@[k], vis0, 0));
                }
            }
        }
    }
    let (a, b) = if scan_costs[cs[seed].left] > scan_costs[cs[seed].right] {
        (cs[seed].right, cs[seed].left)
    } else {
        (cs[seed].left, cs[seed].right)
    };
    proof {
        lemma_count_unset_update(vis@, a as int);
        lemma_count_unset_update(vis@.update(a as int, true), b as int);
    }
    vis.set(a, true);
    vis.set(b, true);
    let mut order: Vec<usize> = Vec::new();
    order.push(a);
    order.push(b);
    let mut sides: Vec<bool> = Vec::new();
    sides.push(false);
    sides.push(false);
    assert(seeded_by(cs@, scan_costs@, vis0, mode, a, b));
    assert(greedy_seed(cs@, scan_costs@, vis0, a, b));
    assert forall|i: int| 0 <= i < n && vis@[i] implies exists|k: int| 0 <= k < order@.len() && order@[k] == i by {
        if i == a {
            assert(order@[0] == i);
        } else {
            assert(i == b);
            assert(order@[1] == i);
        }
    }
    while order.len() < n
        invariant
            vis@.len() == n,
            order@.len() <= n,
            sides@.len() == order@.len(),
            count_unset(vis@) + order@.len() == n,
            forall|k: int| 0 <= k < order@.len() ==> order@[k] < n,
            forall|x: int, y: int| 0 <= x < y < order@.len() ==> order@[x] != order@[y],
            forall|k: int| 0 <= k < order@.len() ==> vis@[#[trigger] order@[k] as int],
            forall|i: int| 0 <= i < n && vis@[i] ==> exists|k: int| 0 <= k < order@.len() && order@[k] == i,
            greedy_seed(cs@, scan_costs@, none_placed(n as nat), order@[0], order@[1]),
            order@.len() >= 2,
            forall|t: int| 2 <= t < order@.len() ==> greedy_step(cs@, placed(order@.take(t), n as nat), #[trigger] order@[t], sides@[t]),
        decreases n - order@.len(),
    {
        assert(vis@ =~= placed(order@, n as nat)) by {
            assert forall|i: int| 0 <= i < n implies vis@[i] == placed(order@, n as nat)[i] by {
                if vis@[i] {
                    let k = choose|k: int| 0 <= k < order@.len() && order@[k] == i;
                    assert(order@.contains(i as usize));
                }
                if order@.contains(i as usize) {
                    let k = choose|k: int| 0 <= k < order@.len() && order@[k] == i as usize;
                    assert(vis@[order@[k] as int]);
                }
            }
        }
        let ghost vis_now = vis@;
        let (idx, side) = match cheapest(cs, &vis, 1) {
            Some(k) => (cs[k].right, true),
            None => match cheapest(cs, &vis, 2) {
                Some(k) => (cs[k].left, false),
                None => match cheapest(cs, &vis, 3) {
                    Some(k) => (cs[k].right, true),
                    None => {
                        proof { lemma_count_unset_positive(vis@); }
                        let mut u: usize = 0;
                        while u < n && vis[u]
                            invariant
                                u <= n,
                                vis@.len() == n,
                                exists|i: int| 0 <= i < n && !vis@[i],
                                forall|i: int| 0 <= i < u ==> vis@[i],
                            decreases n - u,
                        {
                            u = u + 1;
                        }
                        (u, true)
                    },
                },
            },
        };
        assert forall|k: int| 0 <= k < order@.len() implies order@[k] != idx by {
            assert(vis@[order@[k] as int]);
        }
        proof { lemma_count_unset_update(vis@, idx as int); }
        let ghost prev = order@;
        let ghost prev_sides = sides@;
        let ghost prev_vis = vis@;
        assert(greedy_step(cs@, vis_now, idx, side));
        vis.set(idx, true);
        order.push(idx);
        sides.push(side);
        assert(order@.take(prev.len() as int) =~= prev);
        assert forall|t: int| 2 <= t < order@.len() implies greedy_step(cs@, placed(order@.take(t), n as nat), #[trigger] order@[t], sides@[t]) by {
            if t < prev.len() {
                assert(order@.take(t) =~= prev.take(t));
                assert(order@[t] == prev[t] && sides@[t] == prev_sides[t]);
            }
        }
        assert forall|i: int| 0 <= i < n && vis@[i] implies exists|k: int| 0 <= k < order@.len() && order@[k] == i by {
            if i == idx {
                assert(order@[order@.len() - 1] == i);
            } else {
                assert(prev_vis[i]);
                let k = choose|k: int| 0 <= k < prev.len() && prev[k] == i;
                assert(order@[k] == i);
            }
        }
    }
    Some((order, sides))
}

/// The leaf of scan `i` in a reordered plan: the scan under the filters its
/// known constraints give.
pub open spec fn leaf(scans: Seq<Scan>, facts: Seq<Fact>, i: int) -> Operation {
    with_filters(Operation::Scan(scans[i]), facts)
}

/// `op` joins the leaves in `order`: the first two form the innermost join,
/// and each later one is joined on the side `sides` gives; every join is on
/// the variables its sides share.
pub open spec fn assembled(op: Operation, scans: Seq<Scan>, facts: Seq<Fact>, order: Seq<usize>, sides: Seq<bool>, k: int) -> bool
    decreases k,
{
    match op {
        Operation::Join(j) => j.join_vars@ == var_inter(bound_vars(*j.left), bound_vars(*j.right)) && if k <= 2 {
            *j.left == leaf(scans, facts, order[0] as int) && *j.right == leaf(scans, facts, order[1] as int)
        } else if sides[k - 1] {
            *j.left == leaf(scans, facts, order[k - 1] as int) && assembled(*j.right, scans, facts, order, sides, k - 1)
        } else {
            *j.right == leaf(scans, facts, order[k - 1] as int) && assembled(*j.left, scans, facts, order, sides, k - 1)
        },
        _ => false,
    }
}

proof fn lemma_leaf_counts(scans: Seq<Scan>, facts: Seq<Fact>, i: int)
    ensures
        count_scans(leaf(scans, facts, i)) == 1,
        count_joins(leaf(scans, facts, i), false) == 0,
{
    let sc = Operation::Scan(scans[i]);
    assert(count_scans(sc) == 1);
    if synthesized(bound_vars(sc), facts).len() != 0 {
        assert(count_scans(Operation::Filter(Box::new(sc), conjoin(synthesized(bound_vars(sc), facts)))) == count_scans(sc));
        assert(count_joins(Operation::Filter(Box::new(sc), conjoin(synthesized(bound_vars(sc), facts))), false) == count_joins(sc, false));
    }
}

proof fn lemma_assembled_counts(op: Operation, scans: Seq<Scan>, facts: Seq<Fact>, order: Seq<usize>, sides: Seq<bool>, k: int)
    requires
        k >= 2,
        assembled(op, scans, facts, order, sides, k),
    ensures
        count_scans(op) == k,
        count_joins(op, false) == k - 1,
    decreases k,
{
    match op {
        Operation::Join(j) => {
            lemma_leaf_counts(scans, facts, order[0] as int);
            lemma_leaf_counts(scans, facts, order[1] as int);
            lemma_leaf_counts(scans, facts, order[k - 1] as int);
            if k > 2 {
                if sides[k - 1] {
                    lemma_assembled_counts(*j.right, scans, facts, order, sides, k - 1);
                } else {
                    lemma_assembled_counts(*j.left, scans, facts, order, sides, k - 1);
                }
            }
        },
        _ => {},
    }
}

fn make_leaf(scans: &Vec<Scan>, info: &ConditionInfo, i: usize) -> (r: Operation)
    requires
        i < scans@.len(),
    ensures
        r == leaf(scans@, info@, i as int),
{
    insert_filters(Operation::Scan(scans[i].copy()), info)
}

/// `op` joins the scans `scans`, each exactly once, in some order.
pub open spec fn reordered(op: Operation, scans: Seq<Scan>, facts: Seq<Fact>) -> bool {
    exists|order: Seq<usize>, sides: Seq<bool>|
        is_permutation(order, scans.len()) && #[trigger] assembled(op, scans, facts, order, sides, scans.len() as int)
}

/// The cost a join estimate gives a candidate: its value, or the highest
/// cost when the join has no estimate of its own; other failures give none.
pub open spec fn join_cost_of(res: Result<u64, SelectivityError>) -> Option<u64> {
    match res {
        Ok(c) => Some(c),
        Err(SelectivityError::NoSelectivityForJoin) => Some(u64::MAX),
        Err(_) => None,
    }
}

/// Pairs in row-major order: `(x1, y1)` before `(x2, y2)`.
pub open spec fn pair_lt(x1: usize, y1: usize, x2: usize, y2: usize) -> bool {
    x1 < x2 || (x1 == x2 && y1 < y2)
}

/// The scan estimate returned `Ok(costs[i])` for scan `i`.
pub open spec fn scan_costs_from<F: Fn(&Scan) -> Result<u64, SelectivityError>>(scan_cost: F, scans: Seq<Scan>, costs: Seq<u64>) -> bool {
    costs.len() == scans.len() && forall|i: int| 0 <= i < scans.len() ==> #[trigger] scan_cost.ensures((&scans[i],), Ok(costs[i]))
}

/// `c` joins two distinct scans of `scans`, and its cost and connection are
/// those of `Join::new` of the two scans under the join estimate.
pub open spec fn candidate_from<G: Fn(&Join) -> Result<u64, SelectivityError>>(join_cost: G, scans: Seq<Scan>, c: Candidate) -> bool {
    &&& c.left < scans.len() && c.right < scans.len() && c.left != c.right
    &&& exists|j: Join, res: Result<u64, SelectivityError>|
        #[trigger] join_cost.ensures((&j,), res) && *j.left == Operation::Scan(scans[c.left as int]) && *j.right
            == Operation::Scan(scans[c.right as int]) && j.join_vars@ == var_inter(bound_vars(*j.left), bound_vars(*j.right))
            && join_cost_of(res) == Some(c.cost) && c.connected == (j.join_vars@.len() > 0)
}

/// `cs` holds one candidate for each ordered pair of distinct scans of
/// `0..n`, in row-major order.
pub open spec fn all_pairs(cs: Seq<Candidate>, n: nat) -> bool {
    &&& forall|k1: int, k2: int| 0 <= k1 < k2 < cs.len() ==> pair_lt(cs[k1].left, cs[k1].right, cs[k2].left, cs[k2].right)
    &&& forall|x: usize, y: usize| x < n && y < n && x != y ==> #[trigger] has_pair(cs, x, y)
}

/// Some candidate of `cs` joins `x` and `y`, in that order.
pub open spec fn has_pair(cs: Seq<Candidate>, x: usize, y: usize) -> bool {
    exists|k: int| 0 <= k < cs.len() && #[trigger] cs[k].left == x && cs[k].right == y
}

/// `op` joins `scans` in the greedy order over the costs the estimates
/// returned: `costs` for the scans, `cs` for every ordered pair.
pub open spec fn planned_greedily<F: Fn(&Scan) -> Result<u64, SelectivityError>, G: Fn(&Join) -> Result<u64, SelectivityError>>(
    op: Operation,
    scans: Seq<Scan>,
    facts: Seq<Fact>,
    scan_cost: F,
    join_cost: G,
) -> bool {
    exists|costs: Seq<u64>, cs: Seq<Candidate>, order: Seq<usize>, sides: Seq<bool>|
        scan_costs_from(scan_cost, scans, costs) && all_pairs(cs, scans.len()) && (forall|k: int|
            0 <= k < cs.len() ==> candidate_from(join_cost, scans, #[trigger] cs[k])) && #[trigger] greedy_order(
            cs,
            costs,
            scans.len(),
            order,
            sides,
        ) && #[trigger] assembled(op, scans, facts, order, sides, scans.len() as int)
}

/// Reorders a conjunction of scans by estimated cost into a join tree, with
/// the filters the known constraints give above each scan. Each scan, and
/// the join of each ordered pair of distinct scans, is priced; a join
/// without an estimate of its own costs the most. Fails when an estimate
/// fails otherwise.
pub fn optimize_bgp<F, G>(scans: &Vec<Scan>, scan_cost: &F, join_cost: &G, info: &ConditionInfo) -> (r: Result<Operation, OptimizerError>)
    where
        F: Fn(&Scan) -> Result<u64, SelectivityError>,
        G: Fn(&Join) -> Result<u64, SelectivityError>,
    requires
        scans@.len() >= 2,
        forall|s: &Scan| scan_cost.requires((s,)),
        forall|j: &Join| join_cost.requires((j,)),
    ensures
        r matches Ok(op) ==> count_scans(op) == scans@.len() && count_joins(op, false) == scans@.len() - 1 && reordered(op, scans@, info@) && planned_greedily(
            op,
            scans@,
            info@,
            *scan_cost,
            *join_cost,
        ),
        r matches Err(e) ==> e matches OptimizerError::Selectivity(se) && ((exists|s: &Scan|
            #[trigger] scan_cost.ensures((s,), Err(se))) || (se != SelectivityError::NoSelectivityForJoin && exists|j: &Join|
            #[trigger] join_cost.ensures((j,), Err(se)))),
        ((forall|s: &Scan, x: Result<u64, SelectivityError>| #[trigger] scan_cost.ensures((s,), x) ==> x is Ok) && (forall|
            j: &Join,
            x: Result<u64, SelectivityError>,
        | #[trigger] join_cost.ensures((j,), x) ==> join_cost_of(x) is Some)) ==> r is Ok,
{
    let n = scans.len();
    let mut costs: Vec<u64> = Vec::new();
    let mut i: usize = 0;
    while i < n
        invariant
            n == scans@.len(),
            i <= n,
            costs@.len() == i,
            forall|s: &Scan| scan_cost.requires((s,)),
            forall|k: int| 0 <= k < i ==> #[trigger] scan_cost.ensures((&scans@[k],), Ok(costs@[k])),
        decreases n - i,
    {
        let res = scan_cost(&scans[i]);
        match res {
            Ok(c) => costs.push(c),
            Err(e) => return Err(OptimizerError::Selectivity(e)),
        }
        i = i + 1;
    }
    assert(scan_costs_from(*scan_cost, scans@, costs@));
    let mut cands: Vec<Candidate> = Vec::new();
    let mut a: usize = 0;
    while a < n
        invariant
            n == scans@.len(),
            a <= n,
            forall|j: &Join| join_cost.requires((j,)),
            forall|k: int| 0 <= k < cands@.len() ==> candidate_from(*join_cost, scans@, #[trigger] cands@[k]),
            forall|k1: int, k2: int| 0 <= k1 < k2 < cands@.len() ==> pair_lt(cands@[k1].left, cands@[k1].right, cands@[k2].left, cands@[k2].right),
            forall|k: int| 0 <= k < cands@.len() ==> (#[trigger] cands@[k]).left < a,
            forall|x: usize, y: usize| x < a && y < n && x != y ==> #[trigger] has_pair(cands@, x, y),
        decreases n - a,
    {
        let mut b: usize = 0;
        while b < n
            invariant
                n == scans@.len(),
                a < n,
                b <= n,
                forall|j: &Join| join_cost.requires((j,)),
                forall|k: int| 0 <= k < cands@.len() ==> candidate_from(*join_cost, scans@, #[trigger] cands@[k]),
                forall|k1: int, k2: int| 0 <= k1 < k2 < cands@.len() ==> pair_lt(cands@[k1].left, cands@[k1].right, cands@[k2].left, cands@[k2].right),
                forall|k: int| 0 <= k < cands@.len() ==> pair_lt((#[trigger] cands@[k]).left, cands@[k].right, a, b),
                forall|x: usize, y: usize| (x < a || (x == a && y < b)) && y < n && x != y ==> #[trigger] has_pair(cands@, x, y),
            decreases n - b,
        {
            if a != b {
                let join = Join::new(Operation::Scan(scans[a].copy()), Operation::Scan(scans[b].copy()));
                let res = join_cost(&join);
                let cost = match res {
                    Ok(c) => c,
                    Err(SelectivityError::NoSelectivityForJoin) => u64::MAX,
                    Err(e) => return Err(OptimizerError::Selectivity(e)),
                };
                let c = Candidate { left: a, right: b, cost, connected: join.join_vars.len() > 0 };
                assert(candidate_from(*join_cost, scans@, c)) by {
                    assert(join_cost.ensures((&join,), res));
                }
                let ghost before = cands@;
                cands.push(c);
                assert forall|x: usize, y: usize| (x < a || (x == a && y < b + 1)) && y < n && x != y implies #[trigger] has_pair(cands@, x, y) by {
                    if x == a && y == b {
                        assert(cands@[before.len() as int].left == x);
                    } else {
                        assert(has_pair(before, x, y));
                        let k = choose|k: int| 0 <= k < before.len() && #[trigger] before[k].left == x && before[k].right == y;
                        assert(cands@[k] == before[k]);
                    }
                }
            }
            b = b + 1;
        }
        a = a + 1;
    }
    proof {
        if n >= 2 {
            assert(has_pair(cands@, 0usize, 1usize));
            let k = choose|k: int| 0 <= k < cands@.len() && #[trigger] cands@[k].left == 0usize && cands@[k].right == 1usize;
            assert(eligible(cands@[k], none_placed(n as nat), 3));
        }
    }
    let (order, sides) = match join_order(n, &costs, &cands) {
        Some(x) => x,
        None => return Err(OptimizerError::UnexpectedOperation),
    };
    let first = make_leaf(scans, info, order[0]);
    let second = make_leaf(scans, info, order[1]);
    let mut plan = Operation::Join(Join::new(first, second));
    let mut k: usize = 2;
    while k < n
        invariant
            n == scans@.len(),
            2 <= k <= n,
            is_permutation(order@, n as nat),
            sides@.len() == n,
            assembled(plan, scans@, info@, order@, sides@, k as int),
        decreases n - k,
    {
        let next = make_leaf(scans, info, order[k]);
        if sides[k] {
            plan = Operation::Join(Join::new(next, plan));
        } else {
            plan = Operation::Join(Join::new(plan, next));
        }
        k = k + 1;
    }
    proof { lemma_assembled_counts(plan, scans@, info@, order@, sides@, n as int); }
    assert(is_permutation(order@, scans@.len()) && assembled(plan, scans@, info@, order@, sides@, n as int));
    assert(all_pairs(cands@, scans@.len()));
    assert(scan_costs_from(*scan_cost, scans@, costs@) && all_pairs(cands@, scans@.len()) && (forall|k: int|
        0 <= k < cands@.len() ==> candidate_from(*join_cost, scans@, #[trigger] cands@[k])) && greedy_order(
        cands@, costs@, scans@.len(), order@, sides@) && assembled(plan, scans@, info@, order@, sides@, scans@.len() as int));
    Ok(plan)
}

/// Some estimate failed, other than a join without an estimate of its own.
pub open spec fn some_estimate_failed<F: Fn(&Scan) -> Result<u64, SelectivityError>, G: Fn(&Join) -> Result<u64, SelectivityError>>(
    scan_cost: F,
    join_cost: G,
) -> bool {
    (exists|s: &Scan, e: SelectivityError| #[trigger] scan_cost.ensures((s,), Err(e))) || (exists|j: &Join, e: SelectivityError|
        e != SelectivityError::NoSelectivityForJoin && #[trigger] join_cost.ensures((j,), Err(e)))
}

/// `r` is `op` optimized under the known constraints `facts`: a conjunction
/// of two or more scans is joined in the greedy order over the returned
/// estimates, or kept when an estimate failed; a single scan is kept; every
/// other operator keeps its kind and parameters around optimized children,
/// a filter adding its constraints when `condition` holds.
pub open spec fn optimized_from<F: Fn(&Scan) -> Result<u64, SelectivityError>, G: Fn(&Join) -> Result<u64, SelectivityError>>(
    op: Operation,
    r: Operation,
    facts: Seq<Fact>,
    condition: bool,
    scan_cost: F,
    join_cost: G,
) -> bool
    decreases op,
{
    match flatten(op) {
        Some(s) => if s.len() < 2 {
            r == op
        } else {
            (r == op && some_estimate_failed(scan_cost, join_cost)) || (reordered(r, s, facts) && planned_greedily(
                r,
                s,
                facts,
                scan_cost,
                join_cost,
            ))
        },
        None => match op {
            Operation::Join(j) => match r {
                Operation::Join(j2) => optimized_from(*j.left, *j2.left, facts, condition, scan_cost, join_cost)
                    && optimized_from(*j.right, *j2.right, facts, condition, scan_cost, join_cost) && j2.join_vars@
                    == var_inter(bound_vars(*j2.left), bound_vars(*j2.right)),
                _ => false,
            },
            Operation::LeftJoin(j) => match r {
                Operation::LeftJoin(j2) => optimized_from(*j.left, *j2.left, facts, condition, scan_cost, join_cost)
                    && optimized_from(*j.right, *j2.right, facts, condition, scan_cost, join_cost) && j2.join_vars@
                    == var_inter(bound_vars(*j2.left), bound_vars(*j2.right)),
                _ => false,
            },
            Operation::Union(a, b) => match r {
                Operation::Union(a2, b2) => optimized_from(*a, *a2, facts, condition, scan_cost, join_cost) && optimized_from(
                    *b,
                    *b2,
                    facts,
                    condition,
                    scan_cost,
                    join_cost,
                ),
                _ => false,
            },
            Operation::Minus(a, b) => match r {
                Operation::Minus(a2, b2) => optimized_from(*a, *a2, facts, condition, scan_cost, join_cost) && optimized_from(
                    *b,
                    *b2,
                    facts,
                    condition,
                    scan_cost,
                    join_cost,
                ),
                _ => false,
            },
            Operation::Filter(o, c) => match r {
                Operation::Filter(o2, c2) => c2 == c && optimized_from(
                    *o,
                    *o2,
                    if condition { facts + condition_facts(c) } else { facts },
                    condition,
                    scan_cost,
                    join_cost,
                ),
                _ => false,
            },
            Operation::Projection(o, vars) => match r {
                Operation::Projection(o2, v2) => v2@ == vars@ && optimized_from(*o, *o2, facts, condition, scan_cost, join_cost),
                _ => false,
            },
            Operation::Offset(o, k) => match r {
                Operation::Offset(o2, k2) => k2 == k && optimized_from(*o, *o2, facts, condition, scan_cost, join_cost),
                _ => false,
            },
            Operation::Limit(o, k) => match r {
                Operation::Limit(o2, k2) => k2 == k && optimized_from(*o, *o2, facts, condition, scan_cost, join_cost),
                _ => false,
            },
            Operation::Scan(_) => r == op,
        },
    }
}

/// Rewrites every conjunction of scans in the plan into a join tree ordered
/// by estimated cost, and recurses through the other operators. With
/// `condition`, the constraints of the filters above a conjunction are put
/// as filters above its scans. A conjunction whose estimates fail is left as
/// it is.
pub fn optimize<F, G>(op: Operation, scan_cost: &F, join_cost: &G, condition: bool, info: ConditionInfo) -> (r: Operation)
    where
        F: Fn(&Scan) -> Result<u64, SelectivityError>,
        G: Fn(&Join) -> Result<u64, SelectivityError>,
    requires
        forall|s: &Scan| scan_cost.requires((s,)),
        forall|j: &Join| join_cost.requires((j,)),
    ensures
        count_scans(r) == count_scans(op),
        op matches Operation::Projection(_, vars) ==> (r matches Operation::Projection(_, v2) && v2@ == vars@),
        optimized_from(op, r, info@, condition, *scan_cost, *join_cost),
    decreases op,
{
    match flatten_scans(&op) {
        Some(scans) => {
            proof { lemma_flatten_counts(op); }
            if scans.len() < 2 {
                return op;
            }
            return match optimize_bgp(&scans, scan_cost, join_cost, &info) {
                Ok(r) => r,
                Err(_) => op,
            };
        },
        None => {},
    }
    match op {
        Operation::Scan(sc) => Operation::Scan(sc),
        Operation::Join(j) => Operation::Join(
            Join::new(optimize(*j.left, scan_cost, join_cost, condition, info.clone_info()), optimize(*j.right, scan_cost, join_cost, condition, info)),
        ),
        Operation::LeftJoin(j) => Operation::LeftJoin(
            Join::new(optimize(*j.left, scan_cost, join_cost, condition, info.clone_info()), optimize(*j.right, scan_cost, join_cost, condition, info)),
        ),
        Operation::Union(l, r) => Operation::Union(
            Box::new(optimize(*l, scan_cost, join_cost, condition, info.clone_info())),
            Box::new(optimize(*r, scan_cost, join_cost, condition, info)),
        ),
        Operation::Minus(l, r) => Operation::Minus(
            Box::new(optimize(*l, scan_cost, join_cost, condition, info.clone_info())),
            Box::new(optimize(*r, scan_cost, join_cost, condition, info)),
        ),
        Operation::Filter(o, c) => {
            let inner = if condition { info.union(ConditionInfo::of_condition(&c)) } else { info };
            Operation::Filter(Box::new(optimize(*o, scan_cost, join_cost, condition, inner)), c)
        },
        Operation::Projection(o, vars) => Operation::Projection(Box::new(optimize(*o, scan_cost, join_cost, condition, info)), vars),
        Operation::Offset(o, k) => Operation::Offset(Box::new(optimize(*o, scan_cost, join_cost, condition, info)), k),
        Operation::Limit(o, k) => Operation::Limit(Box::new(optimize(*o, scan_cost, join_cost, condition, info)), k),
    }
}

} // verus!
