//! Laws of evaluation, stated over the plan semantics.

use vstd::prelude::*;
use crate::database::Triple;
use crate::eval::{agree_on, eval, filter_rows, join_rows, keep, merge, minus_rows, probe, skip_rows, take_rows};
use crate::mapping::{Row, compatible, satisfies};
use crate::operation::{Join, Operation};
use crate::query::{Condition, Variable};

verus! {

/// A row is kept exactly when it is in the input and the predicate holds.
pub proof fn lemma_keep_members(s: Seq<Row>, f: spec_fn(Row) -> bool)
    ensures
        forall|x: Row| #[trigger] keep(s, f).contains(x) <==> s.contains(x) && f(x),
    decreases s.len(),
{
    if s.len() > 0 {
        let front = s.drop_last();
        let last = s.last();
        lemma_keep_members(front, f);
        assert(s =~= front.push(last));
        assert forall|x: Row| #[trigger] keep(s, f).contains(x) <==> s.contains(x) && f(x) by {
            assert(s.contains(x) <==> front.contains(x) || x == last) by {
                if s.contains(x) {
                    let i = choose|i: int| 0 <= i < s.len() && s[i] == x;
                    if i < front.len() {
                        assert(front[i] == x);
                    }
                }
                if front.contains(x) {
                    let i = choose|i: int| 0 <= i < front.len() && front[i] == x;
                    assert(s[i] == x);
                }
                if x == last {
                    assert(s[s.len() - 1] == x);
                }
            }
            let kf = keep(front, f);
            if f(last) {
                assert(keep(s, f) == kf.push(last));
                assert(kf.push(last).contains(x) <==> kf.contains(x) || x == last) by {
                    if kf.push(last).contains(x) {
                        let i = choose|i: int| 0 <= i < kf.len() + 1 && kf.push(last)[i] == x;
                        if i < kf.len() {
                            assert(kf[i] == x);
                        }
                    }
                    if kf.contains(x) {
                        let i = choose|i: int| 0 <= i < kf.len() && kf[i] == x;
                        assert(kf.push(last)[i] == x);
                    }
                    if x == last {
                        assert(kf.push(last)[kf.len() as int] == x);
                    }
                }
            } else {
                assert(keep(s, f) == kf);
            }
        }
    }
}

/// Filter law: a filter yields exactly the mappings of its input that
/// satisfy its condition.
pub proof fn law_filter(e: Operation, c: Condition, db: Seq<Triple>)
    ensures
        eval(Operation::Filter(Box::new(e), c), db) == filter_rows(eval(e, db), c),
        forall|m: Row| #[trigger] eval(Operation::Filter(Box::new(e), c), db).contains(m) <==> eval(e, db).contains(m)
            && satisfies(m, c),
{
    lemma_keep_members(eval(e, db), |l: Row| satisfies(l, c));
}

/// Limit/offset law: `LIMIT l` over `OFFSET o` yields `min(l, max(0, n - o))`
/// mappings, where `n` is the input's count, and they are the input's
/// mappings from position `o` on, in order.
pub proof fn law_limit_offset(e: Operation, o: usize, l: usize, db: Seq<Triple>)
    ensures
        ({
            let s = eval(e, db);
            let start: int = if o < s.len() { o as int } else { s.len() as int };
            let count: int = if l < s.len() - start { l as int } else { s.len() - start };
            let r = eval(Operation::Limit(Box::new(Operation::Offset(Box::new(e), o)), l), db);
            &&& r.len() == count
            &&& count == if (s.len() as int) - (o as int) <= 0 { 0 } else if (l as int) < (s.len() as int) - (o as int) { l as int } else { (s.len() as int) - (o as int) }
            &&& r == s.subrange(start, start + count)
        }),
{
    let s = eval(e, db);
    let mid = skip_rows(s, o);
    let r = take_rows(mid, l);
    let off = Operation::Offset(Box::new(e), o);
    assert(eval(off, db) == mid);
    assert(eval(Operation::Limit(Box::new(off), l), db) == r);
    if o < s.len() {
        assert(mid == s.subrange(o as int, s.len() as int));
        if l < mid.len() {
            assert(r =~= s.subrange(o as int, o + l));
        } else {
            assert(r =~= s.subrange(o as int, s.len() as int));
        }
    } else {
        assert(r =~= s.subrange(s.len() as int, s.len() as int));
    }
}

/// Each merge a probe yields comes from a left mapping that agrees with the
/// right one on the join variables.
proof fn lemma_probe_sources(ls: Seq<Row>, r: Row, jv: Seq<Variable>)
    ensures
        forall|k: int| #![trigger probe(ls, r, jv)[k]] 0 <= k < probe(ls, r, jv).len() ==> exists|i: int|
            0 <= i < ls.len() && #[trigger] agree_on(ls[i], r, jv) && probe(ls, r, jv)[k] == merge(r, ls[i]),
    decreases ls.len(),
{
    if ls.len() > 0 {
        let rest = ls.drop_first();
        lemma_probe_sources(rest, r, jv);
        assert forall|k: int| #![trigger probe(ls, r, jv)[k]] 0 <= k < probe(ls, r, jv).len() implies exists|i: int|
            0 <= i < ls.len() && #[trigger] agree_on(ls[i], r, jv) && probe(ls, r, jv)[k] == merge(r, ls[i]) by {
            if k < probe(rest, r, jv).len() {
                assert(probe(rest, r, jv)[k] == probe(rest, r, jv)[k]);
                let i = choose|i: int| 0 <= i < rest.len() && #[trigger] agree_on(rest[i], r, jv) && probe(rest, r, jv)[k] == merge(r, rest[i]);
                assert(ls[i + 1] == rest[i]);
                assert(probe(ls, r, jv)[k] == probe(rest, r, jv)[k]);
                assert(agree_on(ls[i + 1], r, jv));
            } else {
                assert(probe(ls, r, jv)[k] == merge(r, ls[0]));
            }
        }
    }
}

/// `x` merges a right mapping with a left mapping that agrees with it on the
/// join variables.
pub open spec fn joined_from(x: Row, ls: Seq<Row>, rs: Seq<Row>, jv: Seq<Variable>) -> bool {
    exists|i: int, j: int| 0 <= i < ls.len() && 0 <= j < rs.len() && #[trigger] agree_on(ls[i], rs[j], jv) && x == merge(rs[j], ls[i])
}

/// Compatibility of join results: every mapping a join yields merges a right
/// mapping with a left mapping that binds the join variables to the same
/// values.
pub proof fn law_join_sources(ls: Seq<Row>, rs: Seq<Row>, jv: Seq<Variable>)
    ensures
        forall|k: int| 0 <= k < join_rows(ls, rs, jv).len() ==> joined_from(#[trigger] join_rows(ls, rs, jv)[k], ls, rs, jv),
    decreases rs.len(),
{
    if rs.len() > 0 {
        let front = rs.drop_last();
        law_join_sources(ls, front, jv);
        lemma_probe_sources(ls, rs.last(), jv);
        let a = join_rows(ls, front, jv);
        let b = probe(ls, rs.last(), jv);
        assert forall|k: int| 0 <= k < join_rows(ls, rs, jv).len() implies joined_from(#[trigger] join_rows(ls, rs, jv)[k], ls, rs, jv) by {
            if k < a.len() {
                assert(joined_from(join_rows(ls, front, jv)[k], ls, front, jv));
                let (i, j) = choose|i: int, j: int|
                    0 <= i < ls.len() && 0 <= j < front.len() && #[trigger] agree_on(ls[i], front[j], jv) && a[k] == merge(front[j], ls[i]);
                assert(rs[j] == front[j]);
                assert(join_rows(ls, rs, jv)[k] == a[k]);
                assert(agree_on(ls[i], rs[j], jv));
                assert(0 <= i < ls.len() && 0 <= j < rs.len() && agree_on(ls[i], rs[j], jv) && join_rows(ls, rs, jv)[k] == merge(rs[j], ls[i]));
            } else {
                assert(probe(ls, rs.last(), jv)[k - a.len()] == b[k - a.len()]);
                let i = choose|i: int| 0 <= i < ls.len() && #[trigger] agree_on(ls[i], rs.last(), jv) && b[k - a.len()] == merge(rs.last(), ls[i]);
                assert(join_rows(ls, rs, jv)[k] == b[k - a.len()]);
                assert(rs[rs.len() - 1] == rs.last());
                assert(agree_on(ls[i], rs[rs.len() - 1], jv));
                let j = rs.len() - 1;
                assert(0 <= i < ls.len() && 0 <= j < rs.len() && agree_on(ls[i], rs[j], jv) && join_rows(ls, rs, jv)[k] == merge(rs[j], ls[i]));
            }
        }
    } else {
        assert(join_rows(ls, rs, jv).len() == 0);
    }
}

/// OPTIONAL soundness: every mapping of the left side that no right mapping
/// is compatible with is yielded as it is; every other mapping yielded either
/// is such a left mapping, or merges a right mapping with a left mapping that
/// agrees with it on the join variables.
pub proof fn law_optional(j: Join, db: Seq<Triple>)
    ensures
        ({
            let ls = eval(*j.left, db);
            let rs = eval(*j.right, db);
            let out = eval(Operation::LeftJoin(j), db);
            &&& forall|m: Row|
                ls.contains(m) && (forall|k: int| 0 <= k < rs.len() ==> !compatible(m, #[trigger] rs[k])) ==> #[trigger] out.contains(m)
            &&& forall|x: int|
                0 <= x < out.len() ==> (ls.contains(#[trigger] out[x]) && forall|k: int| 0 <= k < rs.len() ==> !compatible(out[x], #[trigger] rs[k]))
                    || joined_from(out[x], ls, rs, j.join_vars@)
        }),
{
    let ls = eval(*j.left, db);
    let rs = eval(*j.right, db);
    let jn = join_rows(ls, rs, j.join_vars@);
    let f = |l: Row| forall|k: int| 0 <= k < rs.len() ==> !compatible(l, #[trigger] rs[k]);
    let mn = minus_rows(ls, rs);
    let out = eval(Operation::LeftJoin(j), db);
    assert(out == jn + mn);
    lemma_keep_members(ls, f);
    law_join_sources(ls, rs, j.join_vars@);
    assert forall|m: Row|
        ls.contains(m) && (forall|k: int| 0 <= k < rs.len() ==> !compatible(m, #[trigger] rs[k])) implies #[trigger] out.contains(m) by {
        assert(f(m));
        assert(mn.contains(m));
        let i = choose|i: int| 0 <= i < mn.len() && mn[i] == m;
        assert(out[jn.len() + i] == m);
    }
    assert forall|x: int| 0 <= x < out.len() implies (ls.contains(#[trigger] out[x]) && forall|k: int| 0 <= k < rs.len() ==> !compatible(out[x], #[trigger] rs[k]))
        || joined_from(out[x], ls, rs, j.join_vars@) by {
        if x < jn.len() {
            assert(out[x] == jn[x]);
            assert(joined_from(jn[x], ls, rs, j.join_vars@));
        } else {
            assert(out[x] == mn[x - jn.len()]);
            assert(mn.contains(out[x]));
        }
    }
}

/// Compatibility of mappings is symmetric.
pub proof fn law_compatible_symmetric(a: Row, b: Row)
    ensures
        compatible(a, b) == compatible(b, a),
{
}

} // verus!
