//! The triple store: data terms, triples and the database that holds them.

use vstd::prelude::*;
use crate::summary::Summary;
use crate::term::{Iri, Literal, iri_eq, literal_eq};

verus! {

/// The subject of a stored triple: a blank node or an IRI.
#[derive(Debug, Clone)]
pub enum Subject {
    B,
    I(Iri),
}

/// The predicate of a stored triple: always an IRI.
#[derive(Debug, Clone)]
pub enum Predicate {
    I(Iri),
}

/// The object of a stored triple: a blank node, a literal or an IRI. It is
/// also the value a variable is bound to in a solution mapping.
#[derive(Debug, Clone)]
pub enum Object {
    B,
    L(Literal),
    I(Iri),
}

/// Equality of values.
pub open spec fn obj_eq(a: Object, b: Object) -> bool {
    match (a, b) {
        (Object::B, Object::B) => true,
        (Object::L(x), Object::L(y)) => literal_eq(x, y),
        (Object::I(x), Object::I(y)) => iri_eq(x, y),
        _ => false,
    }
}

pub open spec fn opt_obj_eq(a: Option<Object>, b: Option<Object>) -> bool {
    match (a, b) {
        (Some(x), Some(y)) => obj_eq(x, y),
        (None, None) => true,
        _ => false,
    }
}

pub open spec fn subject_eq(a: Subject, b: Subject) -> bool {
    match (a, b) {
        (Subject::B, Subject::B) => true,
        (Subject::I(x), Subject::I(y)) => iri_eq(x, y),
        _ => false,
    }
}

pub open spec fn predicate_eq(a: Predicate, b: Predicate) -> bool {
    match (a, b) {
        (Predicate::I(x), Predicate::I(y)) => iri_eq(x, y),
    }
}

impl Subject {
    pub fn copy(&self) -> (r: Self)
        ensures
            r == *self,
    {
        match self {
            Subject::B => Subject::B,
            Subject::I(i) => Subject::I(i.copy()),
        }
    }

    pub fn same_as(&self, other: &Subject) -> (r: bool)
        ensures
            r == subject_eq(*self, *other),
    {
        match (self, other) {
            (Subject::B, Subject::B) => true,
            (Subject::I(x), Subject::I(y)) => x.same_as(y),
            _ => false,
        }
    }
}

impl Predicate {
    pub fn copy(&self) -> (r: Self)
        ensures
            r == *self,
    {
        match self {
            Predicate::I(i) => Predicate::I(i.copy()),
        }
    }

    pub fn same_as(&self, other: &Predicate) -> (r: bool)
        ensures
            r == predicate_eq(*self, *other),
    {
        match (self, other) {
            (Predicate::I(x), Predicate::I(y)) => x.same_as(y),
        }
    }
}

impl Object {
    pub fn copy(&self) -> (r: Self)
        ensures
            r == *self,
    {
        match self {
            Object::B => Object::B,
            Object::L(l) => Object::L(l.copy()),
            Object::I(i) => Object::I(i.copy()),
        }
    }

    pub fn same_as(&self, other: &Object) -> (r: bool)
        ensures
            r == obj_eq(*self, *other),
    {
        match (self, other) {
            (Object::B, Object::B) => true,
            (Object::L(x), Object::L(y)) => x.same_as(y),
            (Object::I(x), Object::I(y)) => x.same_as(y),
            _ => false,
        }
    }
}

pub fn opt_object_eq(a: &Option<Object>, b: &Option<Object>) -> (r: bool)
    ensures
        r == opt_obj_eq(*a, *b),
{
    match (a, b) {
        (Some(x), Some(y)) => x.same_as(y),
        (None, None) => true,
        _ => false,
    }
}

/// An RDF assertion.
#[derive(Debug, Clone)]
pub struct Triple {
    pub subject: Subject,
    pub predicate: Predicate,
    pub object: Object,
}

impl Triple {
    pub fn new(subject: Subject, predicate: Predicate, object: Object) -> (r: Self)
        ensures
            r == (Triple { subject, predicate, object }),
    {
        Triple { subject, predicate, object }
    }
}

/// An append-only sequence of triples, with the statistics of the last
/// statistics pass.
pub struct Database {
    pub(crate) triples: Vec<Triple>,
    pub(crate) summary: Summary,
}

impl Database {
    pub closed spec fn stats(&self) -> Summary {
        self.summary
    }
}

impl View for Database {
    type V = Seq<Triple>;

    closed spec fn view(&self) -> Seq<Triple> {
        self.triples@
    }
}

impl Database {
    pub fn new() -> (r: Self)
        ensures
            r@ == Seq::<Triple>::empty(),
            r.stats().triples() == Seq::<Triple>::empty(),
            r.stats().describes(Seq::empty()),
    {
        Database { triples: Vec::new(), summary: Summary::new() }
    }

    /// Appends a triple; the statistics stay those of the last pass.
    pub fn add(&mut self, triple: Triple)
        ensures
            final(self)@ == old(self)@.push(triple),
            final(self).stats() == old(self).stats(),
    {
        self.triples.push(triple);
    }

    /// The statistics of the last statistics pass.
    pub fn summary(&self) -> (r: &Summary)
        ensures
            *r == self.stats(),
    {
        &self.summary
    }

    /// The triples, in the order they were added.
    pub fn triples(&self) -> (r: &Vec<Triple>)
        ensures
            r@ == self@,
    {
        &self.triples
    }
}

impl Database {
    /// Computes the statistics of the current triples.
    pub fn build_statistics(&mut self)
        requires
            old(self)@.len() < usize::MAX,
        ensures
            final(self)@ == old(self)@,
            final(self).stats().describes(final(self)@),
            final(self).stats().triples() == final(self)@,
    {
        let mut s = Summary::new();
        let mut i: usize = 0;
        assert(self.triples@.subrange(0, 0) =~= Seq::<Triple>::empty());
        while i < self.triples.len()
            invariant
                self.triples@ == old(self)@,
                self.triples@.len() < usize::MAX,
                i <= self.triples@.len(),
                s.describes(self.triples@.subrange(0, i as int)),
                s.triples() == self.triples@.subrange(0, i as int),
            decreases self.triples@.len() - i,
        {
            s.update(&self.triples[i]);
            assert(self.triples@.subrange(0, i as int).push(self.triples@[i as int]) =~= self.triples@.subrange(0, i + 1));
            i = i + 1;
        }
        assert(self.triples@.subrange(0, self.triples@.len() as int) =~= self.triples@);
        self.summary = s;
    }
}

} // verus!
