use sparql_engine::all_plans::{all_plans, AllPlansError};
use sparql_engine::condition::{normalize_condition, ConditionInfo, VariableInfo};
use sparql_engine::database::{Database, Object, Predicate, Subject, Triple};
use sparql_engine::estimate::{join_estimate, scan_estimate, vc_join_cost, vc_scan_cost, Optimizer};
use sparql_engine::mapping::Mapping;
use sparql_engine::operation::{Join, Operation, Scan};
use sparql_engine::optimize::{cheapest, flatten_scans, insert_filters, join_order, optimize_bgp, Candidate, SelectivityError};
use sparql_engine::planner::{plan_expression, ExpandError};
use sparql_engine::query::{self, Condition, Expression, Query, QueryType, SolutionModifier, Variable, Variables};
use sparql_engine::summary::{o_c, s_p, t_p};
use sparql_engine::term::{decimal_less, Decimal, Iri, Literal};
use sparql_engine::text::{find, remove_char};

fn iri(s: &str) -> Iri {
    Iri::new(s.to_string())
}

fn lit(s: &str) -> Literal {
    Literal::new(s.to_string())
}

fn var(s: &str) -> Variable {
    Variable::new(s.to_string())
}

fn scan(s: &str, p: &str, o: &str) -> Scan {
    let subject = if s.starts_with('?') { query::Subject::V(var(s)) } else { query::Subject::I(iri(s)) };
    let predicate = if p.starts_with('?') { query::Predicate::V(var(p)) } else { query::Predicate::I(iri(p)) };
    let object = if o.starts_with('?') { query::Object::V(var(o)) } else { query::Object::L(lit(o)) };
    Scan::new(subject, predicate, object)
}

fn atom(n: &str) -> Condition {
    Condition::Bound(var(n))
}

fn not(c: Condition) -> Condition {
    Condition::Not(Box::new(c))
}

fn and(a: Condition, b: Condition) -> Condition {
    Condition::And(Box::new(a), Box::new(b))
}

fn or(a: Condition, b: Condition) -> Condition {
    Condition::Or(Box::new(a), Box::new(b))
}

fn show(c: &Condition) -> String {
    format!("{:?}", c)
}

#[test]
fn literal_parts_and_number() {
    let l = lit("\"42\"^^<http://www.w3.org/2001/XMLSchema#integer>");
    assert_eq!(l.value, "\"42\"");
    assert_eq!(l.datatype.as_deref(), Some("<http://www.w3.org/2001/XMLSchema#integer>"));
    assert_eq!(l.parsed, Some(Decimal { mantissa: 42, scale: 0 }));
    let l = lit("\"chat\"@fr");
    assert_eq!(l.value, "\"chat\"");
    assert_eq!(l.language.as_deref(), Some("fr"));
    assert_eq!(l.parsed, None);
    assert_eq!(lit("-17").parsed, Some(Decimal { mantissa: -17, scale: 0 }));
    assert_eq!(lit("1.5").parsed, Some(Decimal { mantissa: 15, scale: 1 }));
    assert_eq!(lit("\"-0.25\"").parsed, Some(Decimal { mantissa: -25, scale: 2 }));
    assert_eq!(lit("1.").parsed, None);
    assert_eq!(lit(".5").parsed, None);
    assert_eq!(lit("1.2.3").parsed, None);
    assert!(decimal_less(Decimal { mantissa: 15, scale: 1 }, Decimal { mantissa: 2, scale: 0 }));
    assert!(!decimal_less(Decimal { mantissa: 20, scale: 1 }, Decimal { mantissa: 2, scale: 0 }));
    assert_eq!(lit("99999999999999999999").parsed, None);
    assert!(lit("30").same_as(&lit("30")));
    assert!(!lit("30").same_as(&lit("030")));
}

#[test]
fn iri_forms_and_equality() {
    match iri("<http://a/b> .") {
        Iri::IRIREF(s) => assert_eq!(s, "<http://a/b>"),
        _ => panic!("expected an absolute IRI"),
    }
    match iri("foaf:name") {
        Iri::PrefixedName(n) => {
            assert_eq!(n.ns, "foaf");
            assert_eq!(n.local, "name");
            assert!(n.expanded.is_none());
        }
        _ => panic!("expected a prefixed name"),
    }
    assert!(iri("a:b").same_as(&iri("a:b")));
    assert!(!iri("a:b").same_as(&iri("<a:b>")));
    let expanded = iri("ex:age").expand(&vec![("ex".to_string(), "<http://x/>".to_string())]).ok().unwrap();
    assert!(expanded.same_as(&iri("<http://x/age>")));
    assert!(iri("<http://x/age>").same_as(&expanded));
}

#[test]
fn prefix_expansion_errors_and_blank_nodes() {
    match iri("zz:b").expand(&vec![]) {
        Err(ExpandError::PrefixNotFound(ns)) => assert_eq!(ns, "zz"),
        Ok(_) => panic!("expected an error"),
    }
    match iri("_:b1").expand(&vec![]) {
        Ok(Iri::PrefixedName(n)) => assert!(n.expanded.is_none()),
        _ => panic!("blank nodes pass through"),
    }
}

#[test]
fn expansion_is_idempotent() {
    let q = Query {
        prologue: vec![("ex".to_string(), "<http://x/>".to_string())],
        kind: QueryType::AskQuery(
            Expression::Triple(query::Subject::V(var("?s")), query::Predicate::I(iri("ex:p")), query::Object::I(iri("ex:o"))),
            SolutionModifier::new(),
        ),
    };
    let once = q.expand().ok().unwrap();
    let twice = once.expand().ok().unwrap();
    assert_eq!(format!("{:?}", once.kind), format!("{:?}", twice.kind));
    assert_eq!(once.prologue, twice.prologue);
}

#[test]
fn text_helpers() {
    assert_eq!(find("ab^^cd^^", "^^"), Some(2));
    assert_eq!(find("abc", "x"), None);
    assert_eq!(remove_char("<http://x/>", '>'), "<http://x/");
}

#[test]
fn normalize_pushes_negation_down() {
    let c = not(and(atom("?a"), not(atom("?b"))));
    assert_eq!(show(&normalize_condition(&c)), show(&or(not(atom("?a")), atom("?b"))));
    let c = not(or(atom("?a"), atom("?b")));
    assert_eq!(show(&normalize_condition(&c)), show(&and(not(atom("?a")), not(atom("?b")))));
    assert_eq!(show(&normalize_condition(&not(not(atom("?a"))))), show(&atom("?a")));
}

#[test]
fn normalize_is_idempotent() {
    let c = not(and(or(atom("?a"), not(atom("?b"))), not(not(atom("?c")))));
    let once = normalize_condition(&c);
    assert_eq!(show(&normalize_condition(&once)), show(&once));
}

#[test]
fn de_morgan_on_values() {
    let l = normalize_condition(&not(and(atom("?a"), atom("?b"))));
    let r = normalize_condition(&or(not(atom("?a")), not(atom("?b"))));
    assert_eq!(show(&l), show(&r));
    let l = normalize_condition(&not(or(atom("?a"), atom("?b"))));
    let r = normalize_condition(&and(not(atom("?a")), not(atom("?b"))));
    assert_eq!(show(&l), show(&r));
}

#[test]
fn condition_analysis() {
    let x = || query::Object::V(var("?x"));
    let c = and(
        Condition::LT(x(), query::Object::L(lit("5"))),
        not(Condition::Equals(query::Object::I(iri("<a>")), x())),
    );
    let info = ConditionInfo::of_condition(&c);
    let infos = info.get(&var("?x"));
    assert_eq!(infos.len(), 2);
    assert!(matches!(&infos[0], VariableInfo::Lt(l) if l.value == "5"));
    assert!(matches!(&infos[1], VariableInfo::NotEqualsIri(_)));
    let inverted = ConditionInfo::of_condition(&not(Condition::GT(x(), query::Object::L(lit("3")))));
    assert!(matches!(&inverted.get(&var("?x"))[0], VariableInfo::Lte(_)));
    assert_eq!(ConditionInfo::of_condition(&or(atom("?x"), atom("?y"))).facts.len(), 0);
    let e = Expression::Union(
        Box::new(Expression::Filter(Box::new(Expression::Triple(query::Subject::V(var("?x")), query::Predicate::V(var("?p")), query::Object::V(var("?o")))), Box::new(atom("?x")))),
        Box::new(Expression::Triple(query::Subject::V(var("?x")), query::Predicate::V(var("?p")), query::Object::V(var("?o")))),
    );
    assert_eq!(ConditionInfo::of_expression(&e).facts.len(), 0);
}

#[test]
fn filters_are_synthesized_from_constraints() {
    let info = ConditionInfo::of_condition(&and(atom("?o"), not(Condition::LT(query::Object::V(var("?o")), query::Object::L(lit("7"))))));
    let op = insert_filters(Operation::Scan(scan("?s", "<p>", "?o")), &info);
    match op {
        Operation::Filter(inner, c) => {
            assert!(matches!(*inner, Operation::Scan(_)));
            let expected = and(atom("?o"), not(Condition::LT(query::Object::V(var("?o")), query::Object::L(lit("7")))));
            assert_eq!(show(&c), show(&expected));
        }
        _ => panic!("expected a filter"),
    }
    let untouched = insert_filters(Operation::Scan(scan("?s", "<p>", "?z")), &info);
    assert!(matches!(untouched, Operation::Scan(_)));
}

#[test]
fn variable_counting_costs() {
    assert_eq!(vc_scan_cost(&scan("?s", "<p>", "?o")), 4 * 3 * 2);
    assert_eq!(vc_scan_cost(&scan("<s>", "<p>", "5")), 1 * 3 * 1);
    assert_eq!(vc_scan_cost(&scan("?s", "?p", "?o")), 32);
    let j = Join::new(Operation::Scan(scan("?s", "<p>", "?o")), Operation::Scan(scan("?s", "<q>", "?z")));
    assert_eq!(vc_join_cost(&j), Ok(2 * 24 * 24));
    let j = Join::new(Operation::Scan(scan("?s", "<p>", "?o")), Operation::Scan(scan("?o", "<q>", "?z")));
    assert_eq!(vc_join_cost(&j), Ok(3 * 24 * 24));
    let j = Join::new(Operation::Scan(scan("?s", "<p>", "1")), Operation::Scan(scan("?t", "<q>", "2")));
    assert_eq!(join_estimate(Optimizer::Arqvcp, &j), Ok(4096));
    assert_eq!(join_estimate(Optimizer::Arqvc, &j), Ok(4 * 12 * 12));
    let nested = Join::new(Operation::Join(Join::new(Operation::Scan(scan("?s", "<p>", "?o")), Operation::Scan(scan("?s", "<q>", "?z")))), Operation::Scan(scan("?s", "<p>", "?o")));
    assert_eq!(vc_join_cost(&nested), Err(SelectivityError::NoSelectivityForJoin));
    assert_eq!(scan_estimate(Optimizer::Fixed, &scan("?s", "<p>", "?o")), Ok(1));
    assert!(scan_estimate(Optimizer::Random, &scan("?s", "<p>", "?o")).is_ok());
    assert_eq!(scan_estimate(Optimizer::Arqpf, &scan("?s", "<p>", "?o")), Err(SelectivityError::NonConjunctiveStructure));
}

#[test]
fn cheapest_prefers_earliest_of_equal_costs() {
    let cands = vec![
        Candidate { left: 0, right: 1, cost: 5, connected: true },
        Candidate { left: 1, right: 0, cost: 3, connected: false },
        Candidate { left: 1, right: 2, cost: 3, connected: true },
        Candidate { left: 2, right: 1, cost: 3, connected: true },
    ];
    let vis = vec![false, false, false];
    assert_eq!(cheapest(&cands, &vis, 0), Some(2));
    assert_eq!(cheapest(&cands, &vis, 3), Some(1));
    assert_eq!(cheapest(&cands, &vis, 1), None);
}

#[test]
fn join_order_is_a_permutation() {
    let cands = vec![
        Candidate { left: 0, right: 1, cost: 9, connected: true },
        Candidate { left: 1, right: 0, cost: 9, connected: true },
        Candidate { left: 1, right: 2, cost: 2, connected: true },
        Candidate { left: 2, right: 1, cost: 2, connected: true },
        Candidate { left: 0, right: 2, cost: 1, connected: false },
        Candidate { left: 2, right: 0, cost: 1, connected: false },
    ];
    let (order, sides) = join_order(3, &vec![5, 4, 1], &cands).unwrap();
    assert_eq!(order, vec![2, 1, 0]);
    assert_eq!(sides, vec![false, false, true]);
    assert_eq!(join_order(2, &vec![1, 1], &vec![]), None);
}

#[test]
fn conjunctions_are_reordered() {
    let scans = vec![scan("?x", "<a>", "?y"), scan("?y", "<b>", "?z"), scan("<k>", "<c>", "?x")];
    let op = optimize_bgp(&scans, &|s: &Scan| Ok(vc_scan_cost(s)), &|j: &Join| vc_join_cost(j), &ConditionInfo::new()).ok().unwrap();
    let leaves = flatten_scans(&op).unwrap();
    assert_eq!(leaves.len(), 3);
    let mut ids: Vec<String> = leaves.iter().map(|s| format!("{:?}", s)).collect();
    ids.sort();
    let mut expected: Vec<String> = scans.iter().map(|s| format!("{:?}", s)).collect();
    expected.sort();
    assert_eq!(ids, expected);
    let failed = optimize_bgp(&scans, &|_: &Scan| Err(SelectivityError::EncounteredNaNValue), &|j: &Join| vc_join_cost(j), &ConditionInfo::new());
    assert!(failed.is_err());
}

#[test]
fn plans_follow_the_pattern() {
    let e = Expression::Optional(
        Box::new(Expression::Triple(query::Subject::V(var("?p")), query::Predicate::I(iri("<age>")), query::Object::V(var("?a")))),
        Box::new(Expression::Triple(query::Subject::V(var("?p")), query::Predicate::I(iri("<email>")), query::Object::V(var("?e")))),
    );
    match plan_expression(&e) {
        Operation::LeftJoin(j) => {
            assert_eq!(j.join_vars.len(), 1);
            assert_eq!(j.join_vars[0].name, "?p");
        }
        _ => panic!("expected a left join"),
    }
}

fn stats_db() -> Database {
    let mut db = Database::new();
    for (s, p, o) in [("<A>", "<p>", "1"), ("<A>", "<q>", "2"), ("<B>", "<p>", "1"), ("<B>", "<p>", "3")] {
        db.add(Triple::new(Subject::I(iri(s)), Predicate::I(iri(p)), Object::L(lit(o))));
    }
    db
}

#[test]
fn statistics_count_exactly() {
    let mut db = stats_db();
    db.build_statistics();
    let summary = db.summary();
    assert_eq!(summary.t(), 4);
    assert_eq!(summary.r(), 2);
    assert_eq!(summary.predicates().len(), 2);
    let p = Predicate::I(iri("<p>"));
    let q = Predicate::I(iri("<q>"));
    assert_eq!(t_p(&db, &p), 3);
    assert_eq!(o_c(&db, &p, &Object::L(lit("1"))), 2);
    assert_eq!(o_c(&db, &q, &Object::L(lit("1"))), 0);
    assert_eq!(s_p(&db, &p, &q), 1);
    assert_eq!(s_p(&db, &p, &p), 1 + 4);
}

#[test]
fn mapping_insert_and_compatibility() {
    let mut m = Mapping::new();
    m.insert(var("?a"), Object::L(lit("1")));
    m.insert(var("?b"), Object::L(lit("2")));
    m.insert(var("?a"), Object::L(lit("3")));
    assert_eq!(m.items.len(), 2);
    assert!(matches!(m.get(&var("?a")), Some(Object::L(l)) if l.value == "3"));
    let mut n = Mapping::new();
    n.insert(var("?b"), Object::L(lit("2")));
    n.insert(var("?c"), Object::B);
    assert!(m.compatible(&n));
    n.insert(var("?b"), Object::L(lit("9")));
    assert!(!m.compatible(&n));
    assert!(m.compatible(&Mapping::new()));
    let positioned = var("?a").set_pos(0);
    assert!(m.get(&positioned).is_some());
    let mut p = Mapping::new();
    p.insert(var("?z").set_pos(0), Object::B);
    assert!(p.get(&var("?y").set_pos(0)).is_some());
}

#[test]
fn variables_and_modifiers() {
    let vs = Variables::new(vec![]);
    assert!(vs.is_empty());
    let mut m = SolutionModifier::new();
    m.with_limit(3);
    m.with_offset(1);
    assert_eq!((m.limit, m.offset), (Some(3), Some(1)));
    assert_eq!(var("?x").set_pos(4).position, Some(4));
}

#[test]
fn every_plan_of_a_conjunction() {
    let three = Operation::Join(Join::new(
        Operation::Join(Join::new(Operation::Scan(scan("?x", "<a>", "?y")), Operation::Scan(scan("?y", "<b>", "?z")))),
        Operation::Scan(scan("?z", "<c>", "?w")),
    ));
    let plans = all_plans(&three).unwrap();
    assert_eq!(plans.len(), 2 * 6);
    for p in &plans {
        assert_eq!(flatten_scans(p).unwrap().len(), 3);
    }
    let projected = Operation::Projection(
        Box::new(Operation::Join(Join::new(Operation::Scan(scan("?x", "<a>", "?y")), Operation::Scan(scan("?y", "<b>", "?z"))))),
        vec![var("?x")],
    );
    let plans = all_plans(&projected).unwrap();
    assert_eq!(plans.len(), 2);
    assert!(plans.iter().all(|p| matches!(p, Operation::Projection(_, _))));
    let mut big = Operation::Scan(scan("?x", "<p0>", "?y"));
    for i in 1..7 {
        big = Operation::Join(Join::new(big, Operation::Scan(scan("?x", &format!("<p{i}>"), "?y"))));
    }
    assert_eq!(all_plans(&big).err(), Some(AllPlansError::TooManyScans(7)));
}

#[test]
fn reads_ntriples() {
    let text = "<http://a/s> <http://a/p> \"hello world\" .\r\n_:b1\t<http://a/q>\t<http://a/o> .\n<http://a/s> <http://a/p> <http://a/t> .\n";
    let db = Database::from_ntriples_str(text).ok().unwrap();
    let ts = db.triples();
    assert_eq!(ts.len(), 3);
    assert!(matches!(&ts[0].subject, Subject::I(i) if i.same_as(&iri("<http://a/s>"))));
    assert!(matches!(&ts[0].object, Object::L(l) if l.value == "\"hello world\""));
    assert!(matches!(&ts[1].subject, Subject::B));
    assert!(matches!(&ts[1].object, Object::I(i) if i.same_as(&iri("<http://a/o>"))));
    assert!(matches!(&ts[2].object, Object::I(i) if i.same_as(&iri("<http://a/t>"))));
    assert!(matches!(Database::from_ntriples_str("<a> <b>\n"), Err(sparql_engine::ntriples::ParseDatabaseError::MalformedLine(0))));
    assert!(matches!(Database::from_ntriples_str("<a> <b> <c> .\n<a> nope <c> .\n"), Err(sparql_engine::ntriples::ParseDatabaseError::MalformedLine(1))));
    assert_eq!(Database::from_ntriples_str("").ok().unwrap().triples().len(), 0);
}

#[test]
fn joins_without_estimates_cost_the_most() {
    let scans = vec![scan("?x", "<a>", "?y"), scan("?y", "<b>", "?z")];
    let op = optimize_bgp(&scans, &|s: &Scan| Ok(vc_scan_cost(s)), &|_: &Join| Err(SelectivityError::NoSelectivityForJoin), &ConditionInfo::new());
    assert!(op.is_ok());
    let failed = optimize_bgp(&scans, &|s: &Scan| Ok(vc_scan_cost(s)), &|_: &Join| Err(SelectivityError::EncounteredNaNValue), &ConditionInfo::new());
    assert_eq!(failed.err(), Some(sparql_engine::optimize::OptimizerError::Selectivity(SelectivityError::EncounteredNaNValue)));
}

#[test]
fn sampled_self_join_is_scaled() {
    let sample = stats_db();
    let p = Predicate::I(iri("<p>"));
    let q = Predicate::I(iri("<q>"));
    assert_eq!(sparql_engine::summary::s_p_sampled(&sample, 8, &p, &q), 2);
    assert_eq!(sparql_engine::summary::s_p_sampled(&sample, 10, &p, &p), 13);
}
