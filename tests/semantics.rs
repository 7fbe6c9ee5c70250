use sparql_engine::database::{Database, Object, Predicate, Subject, Triple};
use sparql_engine::engine::{evaluate, EvalOptions, QueryResult};
use sparql_engine::estimate::{join_estimate, scan_estimate, Optimizer};
use sparql_engine::mapping::Mapping;
use sparql_engine::query::{self, Condition, Expression, Query, QueryType, SolutionModifier, Variable, Variables};
use sparql_engine::term::{Iri, Literal};

fn iri(s: &str) -> Iri {
    Iri::new(s.to_string())
}

fn lit(s: &str) -> Literal {
    Literal::new(s.to_string())
}

fn var(s: &str) -> Variable {
    Variable::new(s.to_string())
}

fn example_db() -> Database {
    let mut db = Database::new();
    db.add(Triple::new(Subject::I(iri("<P1>")), Predicate::I(iri("<age>")), Object::L(lit("30"))));
    db.add(Triple::new(Subject::I(iri("<P2>")), Predicate::I(iri("<age>")), Object::L(lit("29"))));
    db.add(Triple::new(Subject::I(iri("<P3>")), Predicate::I(iri("<age>")), Object::L(lit("30"))));
    db.add(Triple::new(Subject::I(iri("<P3>")), Predicate::I(iri("<email>")), Object::L(lit("joe@tld.com"))));
    db
}

fn triple(s: &str, p: &str, o: &str) -> Expression {
    let subject = if s.starts_with('?') { query::Subject::V(var(s)) } else { query::Subject::I(iri(s)) };
    let predicate = if p.starts_with('?') { query::Predicate::V(var(p)) } else { query::Predicate::I(iri(p)) };
    let object = if o.starts_with('?') { query::Object::V(var(o)) } else { query::Object::I(iri(o)) };
    Expression::Triple(subject, predicate, object)
}

fn select(vars: &[&str], e: Expression) -> Query {
    Query {
        prologue: vec![],
        kind: QueryType::SelectQuery(Variables::new(vars.iter().map(|v| var(v)).collect()), e, SolutionModifier::new()),
    }
}

fn run_with(q: &Query, optimizer: Optimizer) -> QueryResult {
    let opts = EvalOptions::new().with_optimizer(optimizer);
    evaluate(&example_db(), q, opts, &|s: &_| scan_estimate(optimizer, s), &|j: &_| join_estimate(optimizer, j)).unwrap()
}

fn run(q: &Query) -> QueryResult {
    run_with(q, Optimizer::Arqvc)
}

enum V {
    I(&'static str),
    L(&'static str),
    B,
}

fn value_matches(o: &Object, v: &V) -> bool {
    match (o, v) {
        (Object::I(i), V::I(s)) => i.same_as(&iri(s)),
        (Object::L(l), V::L(s)) => l.same_as(&lit(s)),
        (Object::B, V::B) => true,
        _ => false,
    }
}

fn row_matches(m: &Mapping, names: &[&str], values: &[V]) -> bool {
    m.items.len() == names.len()
        && m.items.iter().enumerate().all(|(i, (k, o))| {
            k.name == names[i] && k.position == Some(i) && value_matches(o, &values[i])
        })
}

fn assert_rows(res: &QueryResult, names: &[&str], expected: &[Vec<V>]) {
    let ms = res.mappings();
    assert_eq!(ms.len(), expected.len());
    assert_eq!(res.size(), expected.len());
    for (m, e) in ms.iter().zip(expected.iter()) {
        assert!(row_matches(m, names, e), "unexpected mapping {:?}", m);
    }
}

fn example1() -> Query {
    select(&["?p", "?e", "?a"], Expression::And(Box::new(triple("?p", "<email>", "?e")), Box::new(triple("?p", "<age>", "?a"))))
}

fn example2() -> Query {
    select(&["?p", "?a"], triple("?p", "<age>", "?a"))
}

fn example5() -> Query {
    select(
        &["?p", "?a"],
        Expression::Filter(
            Box::new(triple("?p", "<age>", "?a")),
            Box::new(Condition::Or(
                Box::new(Condition::Equals(query::Object::V(var("?a")), query::Object::L(lit("30")))),
                Box::new(Condition::Equals(query::Object::V(var("?a")), query::Object::L(lit("26")))),
            )),
        ),
    )
}

fn example7() -> Query {
    select(&["?p", "?a", "?e"], Expression::Optional(Box::new(triple("?p", "<age>", "?a")), Box::new(triple("?p", "<email>", "?e"))))
}

fn example8() -> Query {
    select(&["?p", "?a", "?e"], Expression::Union(Box::new(triple("?p", "<age>", "?a")), Box::new(triple("?p", "<email>", "?e"))))
}

#[test]
fn tests_query1() {
    let res = run(&example1());
    assert_rows(&res, &["?p", "?e", "?a"], &[vec![V::I("<P3>"), V::L("joe@tld.com"), V::L("30")]]);
}

#[test]
fn tests_query2() {
    let res = run(&example2());
    assert_rows(
        &res,
        &["?p", "?a"],
        &[vec![V::I("<P1>"), V::L("30")], vec![V::I("<P2>"), V::L("29")], vec![V::I("<P3>"), V::L("30")]],
    );
}

#[test]
fn tests_query3() {
    let q = Query { prologue: vec![], kind: QueryType::AskQuery(triple("?p", "<age>", "?a"), SolutionModifier::new()) };
    let res = run(&q);
    assert_eq!(res.answer(), Some(true));
    assert_eq!(res.size(), 1);
}

#[test]
fn tests_query4() {
    let q = select(&["?a"], triple("<P1>", "<age>", "?a"));
    let res = run(&q);
    assert_rows(&res, &["?a"], &[vec![V::L("30")]]);
}

#[test]
fn tests_query5() {
    let res = run(&example5());
    assert_rows(&res, &["?p", "?a"], &[vec![V::I("<P1>"), V::L("30")], vec![V::I("<P3>"), V::L("30")]]);
}

#[test]
fn tests_query6() {
    let res = run(&example2());
    assert_rows(
        &res,
        &["?p", "?a"],
        &[vec![V::I("<P1>"), V::L("30")], vec![V::I("<P2>"), V::L("29")], vec![V::I("<P3>"), V::L("30")]],
    );
}

#[test]
fn tests_query7() {
    let res = run(&example7());
    assert_rows(
        &res,
        &["?p", "?a", "?e"],
        &[
            vec![V::I("<P3>"), V::L("30"), V::L("joe@tld.com")],
            vec![V::I("<P1>"), V::L("30"), V::B],
            vec![V::I("<P2>"), V::L("29"), V::B],
        ],
    );
}

#[test]
fn tests_query8() {
    let res = run(&example8());
    assert_rows(
        &res,
        &["?p", "?a", "?e"],
        &[
            vec![V::I("<P1>"), V::L("30"), V::B],
            vec![V::I("<P2>"), V::L("29"), V::B],
            vec![V::I("<P3>"), V::L("30"), V::B],
            vec![V::I("<P3>"), V::B, V::L("joe@tld.com")],
        ],
    );
}

fn sorted_rows(res: &QueryResult) -> Vec<String> {
    let mut out: Vec<String> = res.mappings().iter().map(|m| format!("{:?}", m)).collect();
    out.sort();
    out
}

#[test]
fn estimators_agree_on_results() {
    for q in [example1(), example2(), example5(), example7(), example8()] {
        let reference = sorted_rows(&run_with(&q, Optimizer::Off));
        for o in [Optimizer::Random, Optimizer::Fixed, Optimizer::Arqvc, Optimizer::Arqvcp, Optimizer::Arqpfj] {
            assert_eq!(sorted_rows(&run_with(&q, o)), reference);
        }
    }
}

#[test]
fn projection_has_exactly_the_selected_keys() {
    let res = run(&example7());
    for m in res.mappings() {
        let names: Vec<(String, Option<usize>)> = m.items.iter().map(|(k, _)| (k.name.clone(), k.position)).collect();
        assert_eq!(
            names,
            vec![("?p".to_string(), Some(0)), ("?a".to_string(), Some(1)), ("?e".to_string(), Some(2))]
        );
    }
}

#[test]
fn limit_and_offset_take_a_window() {
    let mut q = example2();
    if let QueryType::SelectQuery(_, _, m) = &mut q.kind {
        m.with_offset(1);
        m.with_limit(5);
    }
    let res = run(&q);
    assert_rows(&res, &["?p", "?a"], &[vec![V::I("<P2>"), V::L("29")], vec![V::I("<P3>"), V::L("30")]]);
    let mut q = example2();
    if let QueryType::SelectQuery(_, _, m) = &mut q.kind {
        m.with_offset(1);
        m.with_limit(1);
    }
    assert_rows(&run(&q), &["?p", "?a"], &[vec![V::I("<P2>"), V::L("29")]]);
    let mut q = example2();
    if let QueryType::SelectQuery(_, _, m) = &mut q.kind {
        m.with_offset(7);
    }
    assert_eq!(run(&q).size(), 0);
}

#[test]
fn filter_on_numbers() {
    let q = select(
        &["?p"],
        Expression::Filter(
            Box::new(triple("?p", "<age>", "?a")),
            Box::new(Condition::LT(query::Object::V(var("?a")), query::Object::L(lit("30")))),
        ),
    );
    assert_rows(&run(&q), &["?p"], &[vec![V::I("<P2>")]]);
    let q = select(
        &["?p"],
        Expression::Filter(
            Box::new(triple("?p", "<age>", "?a")),
            Box::new(Condition::Not(Box::new(Condition::GT(query::Object::V(var("?a")), query::Object::L(lit("29")))))),
        ),
    );
    assert_rows(&run(&q), &["?p"], &[vec![V::I("<P2>")]]);
}

#[test]
fn filter_on_decimals() {
    let q = select(
        &["?p"],
        Expression::Filter(
            Box::new(triple("?p", "<age>", "?a")),
            Box::new(Condition::GT(query::Object::V(var("?a")), query::Object::L(lit("29.5")))),
        ),
    );
    assert_rows(&run(&q), &["?p"], &[vec![V::I("<P1>")], vec![V::I("<P3>")]]);
}

#[test]
fn bound_filter_after_optional() {
    let q = select(
        &["?p"],
        Expression::Filter(Box::new(Expression::Optional(Box::new(triple("?p", "<age>", "?a")), Box::new(triple("?p", "<email>", "?e")))), Box::new(Condition::Bound(var("?e")))),
    );
    assert_rows(&run(&q), &["?p"], &[vec![V::I("<P3>")]]);
}

#[test]
fn metrics_count_operators() {
    let q = select(
        &["?p"],
        Expression::Filter(Box::new(Expression::Optional(Box::new(example1_pattern()), Box::new(triple("?p", "<age>", "?b")))), Box::new(Condition::Bound(var("?p")))),
    );
    let res = run_with(&q, Optimizer::Arqvc);
    let meta = res.operations().unwrap();
    assert_eq!(meta.scans, 3);
    assert_eq!(meta.joins, 1);
    assert_eq!(meta.filters, 1);
    assert_eq!(meta.disjunct_joins, 0);
}

fn example1_pattern() -> Expression {
    Expression::And(Box::new(triple("?p", "<email>", "?e")), Box::new(triple("?p", "<age>", "?a")))
}

#[test]
fn cartesian_join_is_counted() {
    let q = select(&["?p", "?q"], Expression::And(Box::new(triple("?p", "<email>", "?e")), Box::new(triple("?q", "<age>", "?a"))));
    let res = run_with(&q, Optimizer::Off);
    assert_eq!(res.size(), 3);
    assert_eq!(res.operations().unwrap().disjunct_joins, 1);
}

#[test]
fn dry_run_yields_nothing() {
    let opts = EvalOptions::new().with_dryrun(true).with_optimizer(Optimizer::Fixed);
    let res = evaluate(&example_db(), &example1(), opts, &|s: &_| scan_estimate(Optimizer::Fixed, s), &|j: &_| join_estimate(Optimizer::Fixed, j)).unwrap();
    assert!(res.is_dryrun());
    assert_eq!(res.size(), 0);
    assert_eq!(res.optimizers(), &vec![Optimizer::Fixed]);
}

#[test]
fn undeclared_prefix_is_an_error() {
    let q = select(&["?p"], triple("?p", "foaf:age", "?a"));
    let opts = EvalOptions::new();
    let r = evaluate(&example_db(), &q, opts, &|s: &_| scan_estimate(Optimizer::Off, s), &|j: &_| join_estimate(Optimizer::Off, j));
    match r {
        Err(sparql_engine::planner::ExpandError::PrefixNotFound(ns)) => assert_eq!(ns, "foaf"),
        Ok(_) => panic!("expected an error"),
    }
}

#[test]
fn declared_prefix_matches_absolute_iri() {
    let mut q = select(&["?p"], triple("?p", "ex:age", "?a"));
    q.prologue.push(("ex".to_string(), "<".to_string()));
    let res = run(&q);
    assert_eq!(res.size(), 3);
}

#[test]
fn empty_database_answers_no() {
    let q = Query { prologue: vec![], kind: QueryType::AskQuery(triple("?p", "<age>", "?a"), SolutionModifier::new()) };
    let opts = EvalOptions::new().with_optimizer(Optimizer::Off);
    let res = evaluate(&Database::new(), &q, opts, &|s: &_| scan_estimate(Optimizer::Off, s), &|j: &_| join_estimate(Optimizer::Off, j)).unwrap();
    assert_eq!(res.answer(), Some(false));
}

#[test]
fn limit_zero_yields_nothing() {
    let mut q = example2();
    if let QueryType::SelectQuery(_, _, m) = &mut q.kind {
        m.with_limit(0);
    }
    assert_eq!(run(&q).size(), 0);
}

#[test]
fn condition_pushdown_keeps_results() {
    let q = select(
        &["?p", "?e"],
        Expression::Filter(
            Box::new(Expression::And(Box::new(triple("?p", "<age>", "?a")), Box::new(triple("?p", "<email>", "?e")))),
            Box::new(Condition::Not(Box::new(Condition::LT(query::Object::V(var("?a")), query::Object::L(lit("30")))))),
        ),
    );
    let o = Optimizer::Arqvc;
    let opts = EvalOptions::new().with_optimizer(o).with_condition(true);
    let res = evaluate(&example_db(), &q, opts, &|s: &_| scan_estimate(o, s), &|j: &_| join_estimate(o, j)).unwrap();
    assert_rows(&res, &["?p", "?e"], &[vec![V::I("<P3>"), V::L("joe@tld.com")]]);
    assert_eq!(res.operations().unwrap().filters, 2);
}
