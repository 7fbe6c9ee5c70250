//! Solution mappings: ordered bindings of variables to values.

use vstd::prelude::*;
use crate::database::{Object, obj_eq, opt_obj_eq, opt_object_eq};
use crate::query::{self, Condition, Variable, var_key_eq};
use crate::term::{Decimal, MAX_SCALE, decimal_less, decimal_lt};

verus! {

/// The bindings of a mapping, in insertion order.
pub type Row = Seq<(Variable, Object)>;

/// A binding of variables to values. Inserting a bound key replaces its value.
#[derive(Debug, Clone)]
pub struct Mapping {
    pub items: Vec<(Variable, Object)>,
}

impl View for Mapping {
    type V = Row;

    open spec fn view(&self) -> Row {
        self.items@
    }
}

pub open spec fn is_first_key(s: Row, v: Variable, i: int) -> bool {
    0 <= i < s.len() && var_key_eq(s[i].0, v) && forall|j: int| 0 <= j < i ==> !var_key_eq(s[j].0, v)
}

/// Where `v` is bound in `s`: the first binding with an equal key, or -1.
pub open spec fn key_index(s: Row, v: Variable) -> int {
    if exists|i: int| #[trigger] is_first_key(s, v, i) {
        choose|i: int| #[trigger] is_first_key(s, v, i)
    } else {
        -1
    }
}

/// The value bound to `v` in `s`.
pub open spec fn lookup(s: Row, v: Variable) -> Option<Object> {
    let i = key_index(s, v);
    if 0 <= i < s.len() {
        Some(s[i].1)
    } else {
        None
    }
}

/// `s` with `k` bound to `o`: a bound key keeps its place and takes the new
/// value; a new key is appended.
pub open spec fn row_insert(s: Row, k: Variable, o: Object) -> Row {
    let i = key_index(s, k);
    if 0 <= i < s.len() {
        s.update(i, (s[i].0, o))
    } else {
        s.push((k, o))
    }
}

/// Two mappings are compatible when they agree on every shared key, seen
/// from either side.
pub open spec fn compatible(a: Row, b: Row) -> bool {
    agrees_with(a, b) && agrees_with(b, a)
}

/// Every key of `a` that `b` binds is bound to an equal value in `b`.
pub open spec fn agrees_with(a: Row, b: Row) -> bool {
    forall|i: int|
        0 <= i < a.len() ==> match #[trigger] lookup(b, a[i].0) {
            Some(o) => obj_eq(a[i].1, o),
            None => true,
        }
}

/// The value of a condition operand under a mapping.
pub open spec fn resolve(o: query::Object, s: Row) -> Option<Object> {
    match o {
        query::Object::L(l) => Some(Object::L(l)),
        query::Object::I(i) => Some(Object::I(i)),
        query::Object::V(v) => lookup(s, v),
    }
}

/// The number a value carries, if it is a numeric literal.
pub open spec fn numeric(o: Option<Object>) -> Option<Decimal> {
    match o {
        Some(Object::L(l)) => match l.parsed {
            Some(d) => if d.scale <= MAX_SCALE { Some(d) } else { None },
            None => None,
        },
        _ => None,
    }
}

pub open spec fn resolved_eq(a: Option<Object>, b: Option<Object>) -> bool {
    match (a, b) {
        (Some(x), Some(y)) => obj_eq(x, y),
        _ => false,
    }
}

/// Whether a mapping satisfies a condition. Two variables are equal when they
/// are bound to equal values or both unbound; otherwise both operands must
/// resolve to equal values. Comparisons hold only between numeric literals.
pub open spec fn satisfies(s: Row, c: Condition) -> bool
    decreases c,
{
    match c {
        Condition::Equals(a, b) => match (a, b) {
            (query::Object::V(x), query::Object::V(y)) => opt_obj_eq(lookup(s, x), lookup(s, y)),
            _ => resolved_eq(resolve(a, s), resolve(b, s)),
        },
        Condition::LT(a, b) => match (numeric(resolve(a, s)), numeric(resolve(b, s))) {
            (Some(x), Some(y)) => decimal_lt(x, y),
            _ => false,
        },
        Condition::GT(a, b) => match (numeric(resolve(a, s)), numeric(resolve(b, s))) {
            (Some(x), Some(y)) => decimal_lt(y, x),
            _ => false,
        },
        Condition::Bound(v) => lookup(s, v) is Some,
        Condition::Not(c) => !satisfies(s, *c),
        Condition::And(c1, c2) => satisfies(s, *c1) && satisfies(s, *c2),
        Condition::Or(c1, c2) => satisfies(s, *c1) || satisfies(s, *c2),
    }
}

pub fn copy_binding(b: &(Variable, Object)) -> (r: (Variable, Object))
    ensures
        r == *b,
{
    (b.0.copy(), b.1.copy())
}

impl Mapping {
    pub fn new() -> (r: Self)
        ensures
            r@ == Seq::<(Variable, Object)>::empty(),
    {
        Mapping { items: Vec::new() }
    }

    pub fn copy(&self) -> (r: Self)
        ensures
            r@ == self@,
    {
        let mut items: Vec<(Variable, Object)> = Vec::new();
        let mut i: usize = 0;
        while i < self.items.len()
            invariant
                i <= self@.len(),
                items@ == self@.subrange(0, i as int),
            decreases self@.len() - i,
        {
            items.push(copy_binding(&self.items[i]));
            assert(items@ =~= self@.subrange(0, i + 1));
            i = i + 1;
        }
        assert(items@ =~= self@);
        Mapping { items }
    }

    /// Where `v` is bound.
    pub fn key_position(&self, v: &Variable) -> (r: Option<usize>)
        ensures
            r matches Some(i) ==> key_index(self@, *v) == i && i < self@.len(),
            r is None ==> key_index(self@, *v) == -1,
    {
        let mut i: usize = 0;
        while i < self.items.len()
            invariant
                i <= self@.len(),
                forall|j: int| 0 <= j < i ==> !var_key_eq(self@[j].0, *v),
            decreases self@.len() - i,
        {
            if self.items[i].0.key_eq(v) {
                assert(is_first_key(self@, *v, i as int));
                let ghost c = choose|k: int| #[trigger] is_first_key(self@, *v, k);
                assert(c == i) by {
                    if c > i {
                        assert(var_key_eq(self@[i as int].0, *v));
                    }
                }
                return Some(i);
            }
            i = i + 1;
        }
        assert forall|k: int| !is_first_key(self@, *v, k) by {
        }
        None
    }

    /// The value bound to `v`.
    pub fn get(&self, v: &Variable) -> (r: Option<Object>)
        ensures
            r == lookup(self@, *v),
    {
        match self.key_position(v) {
            Some(i) => Some(self.items[i].1.copy()),
            None => None,
        }
    }

    /// Binds `k` to `o`.
    pub fn insert(&mut self, k: Variable, o: Object)
        ensures
            final(self)@ == row_insert(old(self)@, k, o),
    {
        match self.key_position(&k) {
            Some(i) => {
                let key = self.items[i].0.copy();
                self.items.set(i, (key, o));
            },
            None => {
                self.items.push((k, o));
            },
        }
    }

    /// Whether the two mappings agree on every shared key.
    pub fn compatible(&self, other: &Mapping) -> (r: bool)
        ensures
            r == compatible(self@, other@),
    {
        self.agrees_with(other) && other.agrees_with(self)
    }

    /// Whether every key of this mapping that `other` binds has an equal
    /// value there.
    pub fn agrees_with(&self, other: &Mapping) -> (r: bool)
        ensures
            r == agrees_with(self@, other@),
    {
        let mut i: usize = 0;
        while i < self.items.len()
            invariant
                i <= self@.len(),
                forall|j: int|
                    0 <= j < i ==> match #[trigger] lookup(other@, self@[j].0) {
                        Some(o) => obj_eq(self@[j].1, o),
                        None => true,
                    },
            decreases self@.len() - i,
        {
            match other.get(&self.items[i].0) {
                Some(o) => {
                    if !self.items[i].1.same_as(&o) {
                        return false;
                    }
                },
                None => {},
            }
            i = i + 1;
        }
        true
    }

    /// Whether the mapping satisfies `c`.
    pub fn satisfies(&self, c: &Condition) -> (r: bool)
        ensures
            r == satisfies(self@, *c),
        decreases c,
    {
        match c {
            Condition::Equals(a, b) => {
                match (a, b) {
                    (query::Object::V(x), query::Object::V(y)) => opt_object_eq(&self.get(x), &self.get(y)),
                    _ => {
                        match (self.resolve(a), self.resolve(b)) {
                            (Some(x), Some(y)) => x.same_as(&y),
                            _ => false,
                        }
                    },
                }
            },
            Condition::LT(a, b) => {
                match (number_of(&self.resolve(a)), number_of(&self.resolve(b))) {
                    (Some(x), Some(y)) => decimal_less(x, y),
                    _ => false,
                }
            },
            Condition::GT(a, b) => {
                match (number_of(&self.resolve(a)), number_of(&self.resolve(b))) {
                    (Some(x), Some(y)) => decimal_less(y, x),
                    _ => false,
                }
            },
            Condition::Bound(v) => self.key_position(v).is_some(),
            Condition::Not(c) => !self.satisfies(c),
            Condition::And(c1, c2) => self.satisfies(c1) && self.satisfies(c2),
            Condition::Or(c1, c2) => self.satisfies(c1) || self.satisfies(c2),
        }
    }

    /// The value of a condition operand under this mapping.
    pub fn resolve(&self, o: &query::Object) -> (r: Option<Object>)
        ensures
            r == resolve(*o, self@),
    {
        match o {
            query::Object::L(l) => Some(Object::L(l.copy())),
            query::Object::I(i) => Some(Object::I(i.copy())),
            query::Object::V(v) => self.get(v),
        }
    }
}

fn number_of(o: &Option<Object>) -> (r: Option<Decimal>)
    ensures
        r == numeric(*o),
        r matches Some(d) ==> d.scale <= MAX_SCALE,
{
    match o {
        Some(Object::L(l)) => match l.parsed {
            Some(d) => if d.scale <= MAX_SCALE { Some(d) } else { None },
            None => None,
        },
        _ => None,
    }
}

} // verus!
