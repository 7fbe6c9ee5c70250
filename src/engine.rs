//! The evaluation driver: expand, plan, optimize, run.

use vstd::prelude::*;
use crate::condition::ConditionInfo;
use crate::database::Database;
use crate::estimate::Optimizer;
use crate::eval::{eval, rows, project};
use crate::mapping::Mapping;
use crate::operation::{Join, Operation, Scan};
use crate::optimize::{OperationMeta, SelectivityError, count_scans, count_joins, count_filters, optimize, optimized_from};
use crate::planner::{ExpandError, plan_query, plans_query, query_expanded, query_resolves, query_undeclared};
use crate::query::{Query, QueryType, Variable};

verus! {

/// How a query is evaluated.
#[derive(Debug, Clone, Copy)]
pub struct EvalOptions {
    pub optimizer: Optimizer,
    pub condition: bool,
    pub dryrun: bool,
    pub log: bool,
}

impl EvalOptions {
    /// The defaults: ARQ/PFJ, no condition analysis, not a dry run, logging.
    pub fn new() -> (r: Self)
        ensures
            r.optimizer == Optimizer::Arqpfj,
            !r.condition,
            !r.dryrun,
            r.log,
    {
        EvalOptions { optimizer: Optimizer::Arqpfj, condition: false, dryrun: false, log: true }
    }

    pub fn with_optimizer(self, optimizer: Optimizer) -> (r: Self)
        ensures
            r == (EvalOptions { optimizer, ..self }),
    {
        EvalOptions { optimizer, ..self }
    }

    pub fn with_log(self, log: bool) -> (r: Self)
        ensures
            r == (EvalOptions { log, ..self }),
    {
        EvalOptions { log, ..self }
    }

    pub fn with_dryrun(self, dryrun: bool) -> (r: Self)
        ensures
            r == (EvalOptions { dryrun, ..self }),
    {
        EvalOptions { dryrun, ..self }
    }

    pub fn with_condition(self, condition: bool) -> (r: Self)
        ensures
            r == (EvalOptions { condition, ..self }),
    {
        EvalOptions { condition, ..self }
    }
}

/// What an evaluation produced.
#[derive(Debug)]
pub enum ResultType {
    SelectResult(Vec<Mapping>, usize),
    AskResult(bool),
    DryRun,
}

/// The outcome of an evaluation, with its durations (in nanoseconds, when
/// measured), the cost model used and the operator counts of the final plan.
#[derive(Debug)]
pub struct QueryResult {
    pub kind: ResultType,
    pub run_duration: Option<u64>,
    pub opt_duration: Option<u64>,
    pub optimizers: Vec<Optimizer>,
    pub operations: Option<OperationMeta>,
}

impl QueryResult {
    pub fn select(results: Vec<Mapping>) -> (r: Self)
        ensures
            r.kind matches ResultType::SelectResult(m, n) && m == results && n == results@.len(),
            r.run_duration is None && r.opt_duration is None && r.operations is None,
            r.optimizers@.len() == 0,
    {
        let n = results.len();
        QueryResult { kind: ResultType::SelectResult(results, n), run_duration: None, opt_duration: None, optimizers: Vec::new(), operations: None }
    }

    pub fn ask(result: bool) -> (r: Self)
        ensures
            r.kind == ResultType::AskResult(result),
            r.run_duration is None && r.opt_duration is None && r.operations is None,
            r.optimizers@.len() == 0,
    {
        QueryResult { kind: ResultType::AskResult(result), run_duration: None, opt_duration: None, optimizers: Vec::new(), operations: None }
    }

    pub fn dryrun() -> (r: Self)
        ensures
            r.kind == ResultType::DryRun,
            r.run_duration is None && r.opt_duration is None && r.operations is None,
            r.optimizers@.len() == 0,
    {
        QueryResult { kind: ResultType::DryRun, run_duration: None, opt_duration: None, optimizers: Vec::new(), operations: None }
    }

    /// The number of mappings of a SELECT, 1 for an ASK, 0 for a dry run.
    pub fn size(&self) -> (r: usize)
        ensures
            r == match self.kind {
                ResultType::SelectResult(_, n) => n,
                ResultType::AskResult(_) => 1,
                ResultType::DryRun => 0,
            },
    {
        match &self.kind {
            ResultType::SelectResult(_, n) => *n,
            ResultType::AskResult(_) => 1,
            ResultType::DryRun => 0,
        }
    }

    /// The mappings of a SELECT (none otherwise).
    pub fn mappings(&self) -> (r: &[Mapping])
        ensures
            self.kind matches ResultType::SelectResult(m, _) ==> r@ == m@,
            !(self.kind is SelectResult) ==> r@.len() == 0,
    {
        match &self.kind {
            ResultType::SelectResult(m, _) => m.as_slice(),
            _ => &[],
        }
    }

    /// The answer of an ASK.
    pub fn answer(&self) -> (r: Option<bool>)
        ensures
            r == match self.kind {
                ResultType::AskResult(b) => Some(b),
                _ => None,
            },
    {
        match &self.kind {
            ResultType::AskResult(b) => Some(*b),
            _ => None,
        }
    }

    pub fn run_duration(&self) -> (r: Option<u64>)
        ensures
            r == self.run_duration,
    {
        self.run_duration
    }

    pub fn opt_duration(&self) -> (r: Option<u64>)
        ensures
            r == self.opt_duration,
    {
        self.opt_duration
    }

    pub fn optimizers(&self) -> (r: &Vec<Optimizer>)
        ensures
            r == self.optimizers,
    {
        &self.optimizers
    }

    pub fn operations(&self) -> (r: Option<OperationMeta>)
        ensures
            r == self.operations,
    {
        self.operations
    }

    pub fn is_dryrun(&self) -> (r: bool)
        ensures
            r == (self.kind is DryRun),
    {
        match self.kind {
            ResultType::DryRun => true,
            _ => false,
        }
    }

    pub fn with_run_duration(self, nanos: u64) -> (r: Self)
        ensures
            r.run_duration == Some(nanos),
            r.kind == self.kind && r.opt_duration == self.opt_duration && r.optimizers == self.optimizers
                && r.operations == self.operations,
    {
        QueryResult { run_duration: Some(nanos), ..self }
    }

    pub fn with_optimization_duration(self, nanos: u64) -> (r: Self)
        ensures
            r.opt_duration == Some(nanos),
            r.kind == self.kind && r.run_duration == self.run_duration && r.optimizers == self.optimizers
                && r.operations == self.operations,
    {
        QueryResult { opt_duration: Some(nanos), ..self }
    }
}

/// The variables a query projects, if it is a SELECT.
pub open spec fn projected(q: Query) -> Option<Seq<Variable>> {
    match q.kind {
        QueryType::SelectQuery(v, _, _) => Some(v.0@),
        QueryType::AskQuery(_, _) => None,
    }
}

/// Every mapping has exactly the projected variables as keys, tagged with
/// their positions.
pub open spec fn projected_keys(ms: Seq<Mapping>, vars: Seq<Variable>) -> bool {
    forall|i: int|
        0 <= i < ms.len() ==> (#[trigger] ms[i])@.len() == vars.len() && forall|k: int|
            0 <= k < vars.len() ==> ms[i]@[k].0 == (Variable { name: vars[k].name, position: Some(k as usize) })
}

/// What a query yields on `db` under its initial plan, once expanded.
pub open spec fn unoptimized(q: Query, db: Seq<crate::database::Triple>, rs: Seq<crate::mapping::Row>) -> bool {
    exists|q2: Query, p: Operation| #[trigger] query_expanded(q, q2) && #[trigger] plans_query(q2, p) && rs == eval(p, db)
}

/// What a query yields on `db` under the plan the evaluation runs: its
/// initial plan under `Off`, else that plan optimized with the estimates.
pub open spec fn evaluated<F: Fn(&Scan) -> Result<u64, SelectivityError>, G: Fn(&Join) -> Result<u64, SelectivityError>>(
    q: Query,
    db: Seq<crate::database::Triple>,
    opts: EvalOptions,
    scan_cost: F,
    join_cost: G,
    rs: Seq<crate::mapping::Row>,
) -> bool {
    exists|q2: Query, p0: Operation, p: Operation|
        #[trigger] query_expanded(q, q2) && #[trigger] plans_query(q2, p0) && #[trigger] runs_as(p0, p, opts, scan_cost, join_cost)
            && rs == eval(p, db)
}

/// The plan an evaluation with `opts` runs for the initial plan `p0`.
pub open spec fn runs_as<F: Fn(&Scan) -> Result<u64, SelectivityError>, G: Fn(&Join) -> Result<u64, SelectivityError>>(
    p0: Operation,
    p: Operation,
    opts: EvalOptions,
    scan_cost: F,
    join_cost: G,
) -> bool {
    if opts.optimizer == Optimizer::Off {
        p == p0
    } else {
        optimized_from(p0, p, Seq::empty(), opts.condition, scan_cost, join_cost)
    }
}

/// Optimizes a plan with the given estimates (or not at all under `Off`).
pub fn optimize_plan<F, G>(plan: Operation, opts: &EvalOptions, scan_cost: &F, join_cost: &G) -> (r: Operation)
    where
        F: Fn(&Scan) -> Result<u64, SelectivityError>,
        G: Fn(&Join) -> Result<u64, SelectivityError>,
    requires
        forall|s: &Scan| scan_cost.requires((s,)),
        forall|j: &Join| join_cost.requires((j,)),
    ensures
        count_scans(r) == count_scans(plan),
        runs_as(plan, r, *opts, *scan_cost, *join_cost),
        plan matches Operation::Projection(_, vars) ==> (r matches Operation::Projection(_, v2) && v2@ == vars@),
{
    match opts.optimizer {
        Optimizer::Off => plan,
        _ => optimize(plan, scan_cost, join_cost, opts.condition, ConditionInfo::new()),
    }
}

/// Evaluates a query on `db`: expands its prefixes, plans it, reorders its
/// conjunctions with the given estimates (unless the model is `Off`), and
/// runs it, unless it is a dry run. A SELECT yields its mappings, an ASK
/// whether there is one. Fails exactly when a prefix is not declared.
pub fn evaluate<F, G>(db: &Database, query: &Query, opts: EvalOptions, scan_cost: &F, join_cost: &G) -> (r: Result<QueryResult, ExpandError>)
    where
        F: Fn(&Scan) -> Result<u64, SelectivityError>,
        G: Fn(&Join) -> Result<u64, SelectivityError>,
    requires
        forall|s: &Scan| scan_cost.requires((s,)),
        forall|j: &Join| join_cost.requires((j,)),
    ensures
        r is Err <==> !query_resolves(*query),
        r matches Err(ExpandError::PrefixNotFound(ns)) ==> query_undeclared(*query, ns@),
        r matches Ok(res) ==> {
            &&& res.optimizers@ == seq![opts.optimizer]
            &&& res.operations matches Some(m) ==> exists|q2: Query, p: Operation|
                #[trigger] query_expanded(*query, q2) && #[trigger] plans_query(q2, p) && m.scans == count_scans(p)
            &&& opts.dryrun ==> res.kind is DryRun
            &&& !opts.dryrun && query.kind is SelectQuery ==> res.kind is SelectResult
            &&& !opts.dryrun && query.kind is AskQuery ==> res.kind is AskResult
            &&& res.kind matches ResultType::SelectResult(ms, n) ==> {
                &&& n == ms@.len()
                &&& projected(*query) matches Some(vars) && projected_keys(ms@, vars)
            }
            &&& opts.optimizer == Optimizer::Off && !opts.dryrun ==> match res.kind {
                ResultType::SelectResult(ms, _) => unoptimized(*query, db@, rows(ms@)),
                ResultType::AskResult(b) => exists|rs: Seq<crate::mapping::Row>| unoptimized(*query, db@, rs) && b == (rs.len() > 0),
                ResultType::DryRun => false,
            }
            &&& !opts.dryrun ==> match res.kind {
                ResultType::SelectResult(ms, _) => evaluated(*query, db@, opts, *scan_cost, *join_cost, rows(ms@)),
                ResultType::AskResult(b) => exists|rs: Seq<crate::mapping::Row>|
                    #[trigger] evaluated(*query, db@, opts, *scan_cost, *join_cost, rs) && b == (rs.len() > 0),
                ResultType::DryRun => false,
            }
        },
{
    let expanded = match query.expand() {
        Ok(q) => q,
        Err(e) => return Err(e),
    };
    let plan = plan_query(&expanded);
    let ghost initial = plan;
    let optimized = optimize_plan(plan, &opts, scan_cost, join_cost);
    let mut optimizers: Vec<Optimizer> = Vec::new();
    optimizers.push(opts.optimizer);
    assert(optimizers@ =~= seq![opts.optimizer]);
    let operations = match optimized.size() {
        Some(_) => Some(optimized.meta()),
        None => None,
    };
    assert(query_expanded(*query, expanded) && plans_query(expanded, initial));
    if opts.dryrun {
        let res = QueryResult::dryrun();
        return Ok(QueryResult { optimizers, operations, ..res });
    }
    let out = optimized.run(db);
    let kind = match &expanded.kind {
        QueryType::SelectQuery(_, _, _) => {
            proof {
                assert(initial matches Operation::Projection(_, _));
                let vars = projected(*query).unwrap();
                assert forall|i: int| 0 <= i < out@.len() implies (#[trigger] out@[i])@.len() == vars.len() && forall|k: int|
                    0 <= k < vars.len() ==> out@[i]@[k].0 == (Variable { name: vars[k].name, position: Some(k as usize) }) by {
                    match (initial, optimized) {
                        (Operation::Projection(_, v1), Operation::Projection(o, v2)) => {
                            assert(v2@ == v1@);
                            match (query.kind, expanded.kind) {
                                (QueryType::SelectQuery(qv, _, _), QueryType::SelectQuery(ev, _, _)) => {
                                    assert(v1@ == ev.0@);
                                    assert(ev.0@ == qv.0@);
                                },
                                _ => {},
                            }
                            assert(vars == v2@);
                            let inner = eval(*o, db@);
                            assert(rows(out@) == crate::eval::project_rows(inner, vars));
                            assert(rows(out@)[i] == out@[i]@);
                            assert(out@[i]@ == project(inner[i], vars));
                        },
                        _ => {},
                    }
                }
                if opts.optimizer == Optimizer::Off {
                    assert(query_expanded(*query, expanded) && plans_query(expanded, initial));
                }
                assert(runs_as(initial, optimized, opts, *scan_cost, *join_cost));
                assert(evaluated(*query, db@, opts, *scan_cost, *join_cost, rows(out@)));
            }
            let n = out.len();
            ResultType::SelectResult(out, n)
        },
        QueryType::AskQuery(_, _) => {
            proof {
                if opts.optimizer == Optimizer::Off {
                    assert(query_expanded(*query, expanded) && plans_query(expanded, initial));
                    assert(unoptimized(*query, db@, rows(out@)));
                    assert(rows(out@).len() == out@.len());
                }
                assert(evaluated(*query, db@, opts, *scan_cost, *join_cost, rows(out@)));
            }
            ResultType::AskResult(out.len() > 0)
        },
    };
    Ok(QueryResult { kind, run_duration: None, opt_duration: None, optimizers, operations })
}

/// `p` is the plan an evaluation of `q` with `opts` and these estimates runs.
pub open spec fn prepared<F: Fn(&Scan) -> Result<u64, SelectivityError>, G: Fn(&Join) -> Result<u64, SelectivityError>>(
    q: Query,
    opts: EvalOptions,
    scan_cost: F,
    join_cost: G,
    p: Operation,
) -> bool {
    exists|q2: Query, p0: Operation|
        #[trigger] query_expanded(q, q2) && #[trigger] plans_query(q2, p0) && runs_as(p0, p, opts, scan_cost, join_cost)
}

/// The first half of an evaluation: expands, plans and optimizes the query.
/// Fails exactly when a prefix is not declared.
pub fn prepare<F, G>(query: &Query, opts: &EvalOptions, scan_cost: &F, join_cost: &G) -> (r: Result<Operation, ExpandError>)
    where
        F: Fn(&Scan) -> Result<u64, SelectivityError>,
        G: Fn(&Join) -> Result<u64, SelectivityError>,
    requires
        forall|s: &Scan| scan_cost.requires((s,)),
        forall|j: &Join| join_cost.requires((j,)),
    ensures
        r is Err <==> !query_resolves(*query),
        r matches Err(ExpandError::PrefixNotFound(ns)) ==> query_undeclared(*query, ns@),
        r matches Ok(p) ==> prepared(*query, *opts, *scan_cost, *join_cost, p),
{
    let expanded = match query.expand() {
        Ok(q) => q,
        Err(e) => return Err(e),
    };
    let plan = plan_query(&expanded);
    let ghost initial = plan;
    let optimized = optimize_plan(plan, opts, scan_cost, join_cost);
    assert(query_expanded(*query, expanded) && plans_query(expanded, initial) && runs_as(initial, optimized, *opts, *scan_cost, *join_cost));
    Ok(optimized)
}

/// The second half of an evaluation: runs a prepared plan. A SELECT yields
/// the plan's mappings, an ASK whether there is one.
pub fn execute(db: &Database, query: &Query, plan: &Operation) -> (r: QueryResult)
    ensures
        query.kind is SelectQuery ==> (r.kind matches ResultType::SelectResult(ms, n) && n == ms@.len() && rows(ms@) == eval(
            *plan,
            db@,
        )),
        query.kind is AskQuery ==> r.kind == ResultType::AskResult(eval(*plan, db@).len() > 0),
        r.operations matches Some(m) ==> m.scans == count_scans(*plan) && m.joins == count_joins(*plan, false)
            && m.filters == count_filters(*plan),
        r.optimizers@.len() == 0,
{
    let operations = match plan.size() {
        Some(_) => Some(plan.meta()),
        None => None,
    };
    let out = plan.run(db);
    let res = match &query.kind {
        QueryType::SelectQuery(_, _, _) => QueryResult::select(out),
        QueryType::AskQuery(_, _) => QueryResult::ask(out.len() > 0),
    };
    QueryResult { operations, ..res }
}

} // verus!
