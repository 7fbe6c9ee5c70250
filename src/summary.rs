//! Dataset statistics for cost estimation: triple, subject and predicate
//! counts, counts per predicate and object, and self-join sizes per pair of
//! predicates. Terms are counted by their key: an IRI's absolute form when
//! known, a literal's lexical form.

use vstd::prelude::*;
use vstd::string::*;
use crate::database::{Database, Object, Predicate, Subject, Triple};
use crate::term::Iri;

verus! {

/// The key an IRI is counted under: its absolute form when it has one,
/// `ns:local` otherwise.
pub open spec fn iri_key(i: Iri) -> Seq<char> {
    match i {
        Iri::IRIREF(x) => x@,
        Iri::PrefixedName(n) => match n.expanded {
            Some(e) => e@,
            None => n.ns@ + seq![':'] + n.local@,
        },
    }
}

pub open spec fn predicate_key(p: Predicate) -> Seq<char> {
    match p {
        Predicate::I(i) => iri_key(i),
    }
}

/// Blank subjects share one key.
pub open spec fn subject_key(s: Subject) -> Option<Seq<char>> {
    match s {
        Subject::B => None,
        Subject::I(i) => Some(iri_key(i)),
    }
}

/// The key of an object: a tag (blank, literal, IRI) and its text.
pub open spec fn object_key(o: Object) -> (u8, Seq<char>) {
    match o {
        Object::B => (0, Seq::empty()),
        Object::L(l) => (1, l.value@),
        Object::I(i) => (2, iri_key(i)),
    }
}

/// The triples with predicate key `k`.
pub open spec fn pred_count(ts: Seq<Triple>, k: Seq<char>) -> nat
    decreases ts.len(),
{
    if ts.len() == 0 {
        0
    } else {
        pred_count(ts.drop_last(), k) + if predicate_key(ts.last().predicate) == k { 1nat } else { 0nat }
    }
}

/// The triples with predicate key `k` and object key `o`.
pub open spec fn pred_obj_count(ts: Seq<Triple>, k: Seq<char>, o: (u8, Seq<char>)) -> nat
    decreases ts.len(),
{
    if ts.len() == 0 {
        0
    } else {
        pred_obj_count(ts.drop_last(), k, o) + if predicate_key(ts.last().predicate) == k && object_key(ts.last().object) == o {
            1nat
        } else {
            0nat
        }
    }
}

/// The triples with predicate key `k` and subject key `s`.
pub open spec fn subject_pred_count(ts: Seq<Triple>, s: Option<Seq<char>>, k: Seq<char>) -> nat
    decreases ts.len(),
{
    if ts.len() == 0 {
        0
    } else {
        subject_pred_count(ts.drop_last(), s, k) + if predicate_key(ts.last().predicate) == k && subject_key(ts.last().subject) == s {
            1nat
        } else {
            0nat
        }
    }
}

/// The pairs of triples `(a, b)` of `all` and `ts`, `a` with predicate key
/// `k1`, `b` with `k2`, sharing their subject: the size of the self-join
/// `?x k1 ?y . ?x k2 ?z`.
pub open spec fn pair_count(all: Seq<Triple>, ts: Seq<Triple>, k1: Seq<char>, k2: Seq<char>) -> nat
    decreases ts.len(),
{
    if ts.len() == 0 {
        0
    } else {
        pair_count(all, ts.drop_last(), k1, k2) + if predicate_key(ts.last().predicate) == k2 {
            subject_pred_count(all, subject_key(ts.last().subject), k1)
        } else {
            0nat
        }
    }
}

/// The distinct subject keys.
pub open spec fn subject_keys(ts: Seq<Triple>) -> Set<Option<Seq<char>>> {
    ts.map_values(|t: Triple| subject_key(t.subject)).to_set()
}

/// The distinct predicate keys.
pub open spec fn predicate_keys(ts: Seq<Triple>) -> Set<Seq<char>> {
    ts.map_values(|t: Triple| predicate_key(t.predicate)).to_set()
}

pub fn iri_key_of(i: &Iri) -> (r: String)
    ensures
        r@ == iri_key(*i),
{
    match i {
        Iri::IRIREF(x) => x.clone(),
        Iri::PrefixedName(n) => match &n.expanded {
            Some(e) => e.clone(),
            None => {
                proof { reveal_strlit(":"); }
                n.ns.clone().concat(":").concat(n.local.as_str())
            },
        },
    }
}

fn predicate_key_of(p: &Predicate) -> (r: String)
    ensures
        r@ == predicate_key(*p),
{
    match p {
        Predicate::I(i) => iri_key_of(i),
    }
}

fn subject_key_of(s: &Subject) -> (r: Option<String>)
    ensures
        opt_view(r) == subject_key(*s),
{
    match s {
        Subject::B => None,
        Subject::I(i) => Some(iri_key_of(i)),
    }
}

fn object_key_of(o: &Object) -> (r: (u8, String))
    ensures
        (r.0, r.1@) == object_key(*o),
{
    match o {
        Object::B => (0, String::new()),
        Object::L(l) => (1, l.value.clone()),
        Object::I(i) => (2, iri_key_of(i)),
    }
}

pub open spec fn subject_views(v: Seq<Option<String>>) -> Seq<Option<Seq<char>>> {
    v.map_values(|s: Option<String>| opt_view(s))
}

pub open spec fn string_views(v: Seq<String>) -> Seq<Seq<char>> {
    v.map_values(|s: String| s@)
}

pub open spec fn opt_view(o: Option<String>) -> Option<Seq<char>> {
    match o {
        Some(s) => Some(s@),
        None => None,
    }
}

fn same_opt(a: &Option<String>, b: &Option<String>) -> (r: bool)
    ensures
        r == (opt_view(*a) == opt_view(*b)),
{
    match (a, b) {
        (Some(x), Some(y)) => *x == *y,
        (None, None) => true,
        _ => false,
    }
}

/// Statistics over the triples of a database.
pub struct Summary {
    t: usize,
    subjects: Vec<Option<String>>,
    predicates: Vec<String>,
    triples: Ghost<Seq<Triple>>,
}

impl Summary {
    /// The statistics describe `ts`.
    pub closed spec fn describes(&self, ts: Seq<Triple>) -> bool {
        &&& self.triples@ == ts
        &&& self.t == ts.len()
        &&& subject_views(self.subjects@).no_duplicates()
        &&& subject_views(self.subjects@).to_set() == subject_keys(ts)
        &&& string_views(self.predicates@).no_duplicates()
        &&& string_views(self.predicates@).to_set() == predicate_keys(ts)
    }

    /// The statistics of an empty database.
    pub fn new() -> (r: Self)
        ensures
            r.describes(Seq::empty()),
            r.triples() == Seq::<Triple>::empty(),
    {
        let r = Summary { t: 0, subjects: Vec::new(), predicates: Vec::new(), triples: Ghost(Seq::empty()) };
        assert(subject_views(r.subjects@) =~= Seq::empty());
        assert(string_views(r.predicates@) =~= Seq::empty());
        assert(subject_keys(Seq::empty()) =~= Set::empty());
        assert(predicate_keys(Seq::empty()) =~= Set::empty());
        assert(Seq::<Option<Seq<char>>>::empty().to_set() =~= Set::empty());
        assert(Seq::<Seq<char>>::empty().to_set() =~= Set::empty());
        r
    }

    /// Counts one more triple.
    pub fn update(&mut self, triple: &Triple)
        requires
            old(self).describes(old(self).triples()),
            old(self).triples().len() < usize::MAX,
        ensures
            final(self).describes(old(self).triples().push(*triple)),
            final(self).triples() == old(self).triples().push(*triple),
    {
        let ghost ts = self.triples@;
        let ghost nts = ts.push(*triple);
        self.t = self.t + 1;
        let sk = subject_key_of(&triple.subject);
        let ghost sv = subject_views(self.subjects@);
        let mut found = false;
        let mut i: usize = 0;
        while i < self.subjects.len()
            invariant
                i <= self.subjects@.len(),
                sv == subject_views(self.subjects@),
                found == exists|j: int| 0 <= j < i && sv[j] == opt_view(sk),
            decreases self.subjects@.len() - i,
        {
            assert(sv[i as int] == opt_view(self.subjects@[i as int]));
            if same_opt(&self.subjects[i], &sk) {
                found = true;
            }
            i = i + 1;
        }
        proof {
            assert(nts.map_values(|t: Triple| subject_key(t.subject)) =~= ts.map_values(|t: Triple| subject_key(t.subject)).push(subject_key(triple.subject)));
            ts.map_values(|t: Triple| subject_key(t.subject)).lemma_push_to_set_commute(subject_key(triple.subject));
        }
        if !found {
            self.subjects.push(sk);
            proof {
                assert(subject_views(self.subjects@) =~= sv.push(subject_key(triple.subject)));
                sv.lemma_push_to_set_commute(subject_key(triple.subject));
                assert forall|a: int, b: int| 0 <= a < b < sv.len() + 1 implies sv.push(subject_key(triple.subject))[a] != sv.push(subject_key(triple.subject))[b] by {
                    if b == sv.len() {
                        assert(sv[a] != opt_view(sk));
                    }
                }
            }
        } else {
            proof {
                let j = choose|j: int| 0 <= j < sv.len() && sv[j] == opt_view(sk);
                assert(sv.to_set().contains(subject_key(triple.subject)));
                assert(sv.to_set().insert(subject_key(triple.subject)) =~= sv.to_set());
            }
        }
        let pk = predicate_key_of(&triple.predicate);
        let ghost pv = string_views(self.predicates@);
        let mut pfound = false;
        let mut k: usize = 0;
        while k < self.predicates.len()
            invariant
                k <= self.predicates@.len(),
                pv == string_views(self.predicates@),
                pfound == exists|j: int| 0 <= j < k && pv[j] == pk@,
            decreases self.predicates@.len() - k,
        {
            assert(pv[k as int] == self.predicates@[k as int]@);
            if self.predicates[k] == pk {
                pfound = true;
            }
            k = k + 1;
        }
        proof {
            assert(nts.map_values(|t: Triple| predicate_key(t.predicate)) =~= ts.map_values(|t: Triple| predicate_key(t.predicate)).push(predicate_key(triple.predicate)));
            ts.map_values(|t: Triple| predicate_key(t.predicate)).lemma_push_to_set_commute(predicate_key(triple.predicate));
        }
        if !pfound {
            self.predicates.push(pk);
            proof {
                assert(string_views(self.predicates@) =~= pv.push(predicate_key(triple.predicate)));
                pv.lemma_push_to_set_commute(predicate_key(triple.predicate));
                assert forall|a: int, b: int| 0 <= a < b < pv.len() + 1 implies pv.push(predicate_key(triple.predicate))[a] != pv.push(predicate_key(triple.predicate))[b] by {
                    if b == pv.len() {
                        assert(pv[a] != pk@);
                    }
                }
            }
        } else {
            proof {
                let j = choose|j: int| 0 <= j < pv.len() && pv[j] == pk@;
                assert(pv.to_set().contains(predicate_key(triple.predicate)));
                assert(pv.to_set().insert(predicate_key(triple.predicate)) =~= pv.to_set());
            }
        }
        self.triples = Ghost(nts);
    }

    /// `T`: the number of triples.
    pub fn t(&self) -> (r: usize)
        requires
            self.describes(self.triples()),
        ensures
            r == self.triples().len(),
    {
        self.t
    }

    /// `R`: the number of distinct subjects.
    pub fn r(&self) -> (r: usize)
        requires
            self.describes(self.triples()),
        ensures
            r == subject_keys(self.triples()).len(),
    {
        proof {
            assert(self.triples@ == self.triples());
            assert(subject_views(self.subjects@).no_duplicates());
            subject_views(self.subjects@).unique_seq_to_set();
        }
        self.subjects.len()
    }

    /// `P`: the distinct predicate keys.
    pub fn predicates(&self) -> (r: &Vec<String>)
        requires
            self.describes(self.triples()),
        ensures
            string_views(r@).no_duplicates(),
            string_views(r@).to_set() == predicate_keys(self.triples()),
    {
        &self.predicates
    }

    /// The triples the statistics describe.
    pub closed spec fn triples(&self) -> Seq<Triple> {
        self.triples@
    }
}

/// `T_P[p]`: the triples of `db` whose predicate has the key of `p`.
pub fn t_p(db: &Database, p: &Predicate) -> (r: usize)
    ensures
        r == pred_count(db@, predicate_key(*p)),
{
    let ts = db.triples();
    let k = predicate_key_of(p);
    let mut n: usize = 0;
    let mut i: usize = 0;
    while i < ts.len()
        invariant
            ts@ == db@,
            i <= ts@.len(),
            n == pred_count(ts@.subrange(0, i as int), k@),
            n <= i,
        decreases ts@.len() - i,
    {
        assert(ts@.subrange(0, i + 1).drop_last() =~= ts@.subrange(0, i as int));
        if predicate_key_of(&ts[i].predicate) == k {
            n = n + 1;
        }
        i = i + 1;
    }
    assert(ts@.subrange(0, ts@.len() as int) =~= ts@);
    n
}

/// `O_c[p][o]`: the triples of `db` with the keys of `p` and `o`.
pub fn o_c(db: &Database, p: &Predicate, o: &Object) -> (r: usize)
    ensures
        r == pred_obj_count(db@, predicate_key(*p), object_key(*o)),
{
    let ts = db.triples();
    let k = predicate_key_of(p);
    let ok = object_key_of(o);
    let mut n: usize = 0;
    let mut i: usize = 0;
    while i < ts.len()
        invariant
            ts@ == db@,
            i <= ts@.len(),
            n == pred_obj_count(ts@.subrange(0, i as int), k@, (ok.0, ok.1@)),
            n <= i,
        decreases ts@.len() - i,
    {
        assert(ts@.subrange(0, i + 1).drop_last() =~= ts@.subrange(0, i as int));
        let tk = object_key_of(&ts[i].object);
        if predicate_key_of(&ts[i].predicate) == k && tk.0 == ok.0 && tk.1 == ok.1 {
            n = n + 1;
        }
        i = i + 1;
    }
    assert(ts@.subrange(0, ts@.len() as int) =~= ts@);
    n
}

fn count_subject_pred(ts: &Vec<Triple>, s: &Option<String>, k: &String) -> (r: u64)
    requires
        ts@.len() <= u64::MAX,
    ensures
        r == subject_pred_count(ts@, opt_view(*s), k@),
        r <= ts@.len(),
{
    let mut n: u64 = 0;
    let mut i: usize = 0;
    while i < ts.len()
        invariant
            i <= ts@.len(),
            ts@.len() <= u64::MAX,
            n == subject_pred_count(ts@.subrange(0, i as int), opt_view(*s), k@),
            n <= i,
        decreases ts@.len() - i,
    {
        assert(ts@.subrange(0, i + 1).drop_last() =~= ts@.subrange(0, i as int));
        if predicate_key_of(&ts[i].predicate) == *k && same_opt(&subject_key_of(&ts[i].subject), s) {
            n = n + 1;
        }
        i = i + 1;
    }
    assert(ts@.subrange(0, ts@.len() as int) =~= ts@);
    n
}

/// `S_P[(p1, p2)]`: the pairs of triples of `db` with predicates of the keys
/// of `p1` and `p2` that share their subject, counted exactly.
pub fn s_p(db: &Database, p1: &Predicate, p2: &Predicate) -> (r: u128)
    requires
        db@.len() <= u64::MAX,
    ensures
        r == pair_count(db@, db@, predicate_key(*p1), predicate_key(*p2)),
{
    let ts = db.triples();
    let k1 = predicate_key_of(p1);
    let k2 = predicate_key_of(p2);
    let mut n: u128 = 0;
    let mut j: usize = 0;
    while j < ts.len()
        invariant
            ts@ == db@,
            ts@.len() <= u64::MAX,
            j <= ts@.len(),
            n == pair_count(ts@, ts@.subrange(0, j as int), k1@, k2@),
            n <= j * ts@.len(),
        decreases ts@.len() - j,
    {
        assert(ts@.subrange(0, j + 1).drop_last() =~= ts@.subrange(0, j as int));
        if predicate_key_of(&ts[j].predicate) == k2 {
            let c = count_subject_pred(ts, &subject_key_of(&ts[j].subject), &k1);
            assert(n + c <= (j + 1) * ts@.len()) by (nonlinear_arith)
                requires
                    n <= j * ts@.len(),
                    c <= ts@.len(),
            ;
            assert((j + 1) * ts@.len() <= u64::MAX as int * u64::MAX as int) by (nonlinear_arith)
                requires
                    j + 1 <= u64::MAX,
                    ts@.len() <= u64::MAX,
            ;
            n = n + c as u128;
        } else {
            assert(n <= (j + 1) * ts@.len()) by (nonlinear_arith)
                requires
                    n <= j * ts@.len(),
            ;
        }
        j = j + 1;
    }
    assert(ts@.subrange(0, ts@.len() as int) =~= ts@);
    n
}

/// `S_P[(p1, p2)]` estimated from a sample: the self-join pairs of the
/// sample, scaled by `total / |sample|` and rounded up.
pub open spec fn scaled_pairs(pairs: nat, total: nat, sample: nat) -> nat {
    ((pairs * total + sample - 1) / sample as int) as nat
}

/// `S_P[(p1, p2)]` from a sample of a database of `total` triples: the exact
/// count on the sample, scaled by `total / |sample|` and rounded up.
pub fn s_p_sampled(sample: &Database, total: u64, p1: &Predicate, p2: &Predicate) -> (r: u128)
    requires
        sample@.len() > 0,
        sample@.len() <= total,
        total <= u32::MAX,
    ensures
        r == scaled_pairs(pair_count(sample@, sample@, predicate_key(*p1), predicate_key(*p2)), total as nat, sample@.len()),
{
    let n = sample.triples().len();
    let pairs = s_p(sample, p1, p2);
    proof { lemma_pairs_bound(sample@, sample@, predicate_key(*p1), predicate_key(*p2)); }
    assert(pairs <= n * n);
    assert(pairs * total <= (n * n) * total) by (nonlinear_arith)
        requires
            pairs <= n * n,
    ;
    assert((n * n) * total <= 0xffff_ffff * 0xffff_ffff * 0xffff_ffff) by (nonlinear_arith)
        requires
            n <= 0xffff_ffff,
            total <= 0xffff_ffff,
    ;
    let scaled = pairs * (total as u128) + (n as u128) - 1;
    scaled / (n as u128)
}

proof fn lemma_pairs_bound(all: Seq<Triple>, ts: Seq<Triple>, k1: Seq<char>, k2: Seq<char>)
    ensures
        pair_count(all, ts, k1, k2) <= ts.len() * all.len(),
    decreases ts.len(),
{
    if ts.len() > 0 {
        lemma_pairs_bound(all, ts.drop_last(), k1, k2);
        lemma_subject_pred_bound(all, subject_key(ts.last().subject), k1);
        assert(ts.drop_last().len() * all.len() + all.len() == ts.len() * all.len()) by (nonlinear_arith)
            requires
                ts.drop_last().len() + 1 == ts.len(),
        ;
    }
}

proof fn lemma_subject_pred_bound(ts: Seq<Triple>, s: Option<Seq<char>>, k: Seq<char>)
    ensures
        subject_pred_count(ts, s, k) <= ts.len(),
    decreases ts.len(),
{
    if ts.len() > 0 {
        lemma_subject_pred_bound(ts.drop_last(), s, k);
    }
}

} // verus!
