//! Reading a database from N-Triples text: one triple per line, its terms
//! separated by tabs, or by spaces with a quoted literal last, or by spaces.

use vstd::prelude::*;
use vstd::string::*;
use crate::database::{Database, Object, Predicate, Subject, Triple};
use crate::term::{Iri, Literal, before_char, iri_of_text, iri_text_valid, literal_value};
use crate::text::first_occurrence;

verus! {

/// Why a text is not read as triples.
#[derive(Debug, Clone, Copy, PartialEq, Eq, Structural)]
pub enum ParseDatabaseError {
    /// The line (counted from 0) does not hold three terms, or one of its
    /// IRIs is not an IRI.
    MalformedLine(usize),
}

/// The terms of a line whose object is a quoted literal: the captures of
/// `^(.*) (.*) (".*") .$`.
pub uninterp spec fn quoted_triple(line: Seq<char>) -> Option<(Seq<char>, Seq<char>, Seq<char>)>;

/// Relies on regex::Regex::captures: the three groups of the pattern
/// `^(.*) (.*) (".*") .$` on the line, when it matches.
#[verifier::external_body]
fn split_quoted(line: &str) -> (r: Option<(String, String, String)>)
    ensures
        match r {
            Some((a, b, c)) => quoted_triple(line@) == Some((a@, b@, c@)),
            None => quoted_triple(line@) is None,
        },
{
    let re = regex::Regex::new("^(.*) (.*) (\".*\") .$").unwrap();
    re.captures(line).map(|c| (c[1].to_string(), c[2].to_string(), c[3].to_string()))
}

/// What follows the first `c` in `s`, if `c` occurs.
pub open spec fn after_char(s: Seq<char>, c: char) -> Option<Seq<char>> {
    match first_occurrence(s, seq![c]) {
        Some(i) => Some(s.subrange(i + 1, s.len() as int)),
        None => None,
    }
}

/// The first three pieces of `s` split at `c`, if there are three.
pub open spec fn three_pieces(s: Seq<char>, c: char) -> Option<(Seq<char>, Seq<char>, Seq<char>)> {
    match after_char(s, c) {
        Some(r1) => match after_char(r1, c) {
            Some(r2) => Some((before_char(s, c), before_char(r1, c), before_char(r2, c))),
            None => None,
        },
        None => None,
    }
}

/// The three terms of a line, as text.
pub open spec fn line_parts(l: Seq<char>) -> Option<(Seq<char>, Seq<char>, Seq<char>)> {
    if l.contains('\t') {
        three_pieces(l, '\t')
    } else if l.contains('"') {
        quoted_triple(l)
    } else {
        three_pieces(l, ' ')
    }
}

/// The object text without a trailing " .".
pub open spec fn object_text(o: Seq<char>) -> Seq<char> {
    if o.len() >= 2 && o[o.len() - 2] == ' ' && o[o.len() - 1] == '.' {
        o.subrange(0, o.len() - 2)
    } else {
        o
    }
}

/// Whether the terms of a line can be read: the predicate, and a subject or
/// object in angle brackets, name IRIs.
pub open spec fn parts_valid(p: (Seq<char>, Seq<char>, Seq<char>)) -> bool {
    let o = object_text(p.2);
    &&& (p.0.len() > 0 && p.0[0] == '<') ==> iri_text_valid(p.0)
    &&& iri_text_valid(p.1)
    &&& (o.len() > 0 && o[0] == '<') ==> iri_text_valid(o)
}

pub open spec fn line_valid(l: Seq<char>) -> bool {
    line_parts(l) matches Some(p) && parts_valid(p)
}

/// `t` is the triple a line states: a subject in angle brackets is an IRI,
/// any other a blank node; an object starting with a quote is a literal, one
/// in angle brackets an IRI, any other a blank node.
pub open spec fn line_triple(l: Seq<char>, t: Triple) -> bool {
    match line_parts(l) {
        Some((s, p, o0)) => {
            let o = object_text(o0);
            &&& if s.len() > 0 && s[0] == '<' {
                t.subject matches Subject::I(i) && iri_of_text(s, i)
            } else {
                t.subject is B
            }
            &&& t.predicate matches Predicate::I(i) && iri_of_text(p, i)
            &&& if o.len() > 0 && o[0] == '"' {
                t.object matches Object::L(lit) && lit.value@ == literal_value(o)
            } else if o.len() > 0 && o[0] == '<' {
                t.object matches Object::I(i) && iri_of_text(o, i)
            } else {
                t.object is B
            }
        },
        None => false,
    }
}

/// `s` without a trailing carriage return.
pub open spec fn strip_cr(s: Seq<char>) -> Seq<char> {
    if s.len() > 0 && s.last() == '\r' { s.drop_last() } else { s }
}

/// The lines of a text: split at line feeds, without a trailing carriage
/// return, and without an empty last line after a final line feed.
pub open spec fn text_lines(s: Seq<char>) -> Seq<Seq<char>>
    decreases s.len(),
{
    if s.len() == 0 {
        Seq::empty()
    } else {
        match first_occurrence(s, seq!['\n']) {
            Some(i) => if 0 <= i < s.len() {
                seq![strip_cr(s.subrange(0, i))] + text_lines(s.subrange(i + 1, s.len() as int))
            } else {
                Seq::empty()
            },
            None => seq![strip_cr(s)],
        }
    }
}

fn owned_strip_cr(s: &str) -> (r: String)
    ensures
        r@ == strip_cr(s@),
{
    let n = s.unicode_len();
    if n > 0 && s.get_char(n - 1) == '\r' {
        assert(s@.subrange(0, n - 1) =~= s@.drop_last());
        String::from_str(s.substring_char(0, n - 1))
    } else {
        String::from_str(s)
    }
}

/// Splits a text into its lines.
pub fn lines_of(s: &str) -> (r: Vec<String>)
    ensures
        r@.map_values(|l: String| l@) == text_lines(s@),
{
    let n = s.unicode_len();
    let mut out: Vec<String> = Vec::new();
    let mut start: usize = 0;
    proof { reveal_strlit("\n"); }
    assert(s@.subrange(0, n as int) =~= s@);
    assert(out@.map_values(|l: String| l@) + text_lines(s@) =~= text_lines(s@));
    while start < n
        invariant
            n == s@.len(),
            start <= n,
            out@.map_values(|l: String| l@) + text_lines(s@.subrange(start as int, n as int)) == text_lines(s@),
        decreases n - start,
    {
        let rest = s.substring_char(start, n);
        let ghost before = out@.map_values(|l: String| l@);
        match crate::text::find(rest, "\n") {
            Some(i) => {
                proof {
                    reveal_strlit("\n");
                    assert("\n"@ =~= seq!['\n']);
                    crate::text::lemma_first_occurrence_bound(rest@, "\n"@);
                }
                let line = owned_strip_cr(rest.substring_char(0, i));
                out.push(line);
                assert(rest@.subrange(i + 1, rest@.len() as int) =~= s@.subrange(start + i + 1, n as int));
                assert(out@.map_values(|l: String| l@) =~= before.push(line@));
                assert(before.push(line@) + text_lines(s@.subrange(start + i + 1, n as int)) =~= before + text_lines(rest@));
                start = start + i + 1;
            },
            None => {
                proof {
                    reveal_strlit("\n");
                    assert("\n"@ =~= seq!['\n']);
                }
                let line = owned_strip_cr(rest);
                out.push(line);
                assert(out@.map_values(|l: String| l@) =~= before.push(line@));
                assert(s@.subrange(n as int, n as int) =~= Seq::<char>::empty());
                assert(before.push(line@) + Seq::<Seq<char>>::empty() =~= before + text_lines(rest@));
                start = n;
            },
        }
    }
    assert(s@.subrange(n as int, n as int) =~= Seq::<char>::empty());
    assert(out@.map_values(|l: String| l@) + Seq::<Seq<char>>::empty() =~= out@.map_values(|l: String| l@));
    out
}

fn piece_before(s: &str, c: &str) -> (r: String)
    requires
        c@.len() == 1,
    ensures
        r@ == before_char(s@, c@[0]),
{
    assert(c@ =~= seq![c@[0]]);
    match crate::text::find(s, c) {
        Some(i) => {
            proof { crate::text::lemma_first_occurrence_bound(s@, c@); }
            String::from_str(s.substring_char(0, i))
        },
        None => String::from_str(s),
    }
}

fn rest_after<'a>(s: &'a str, c: &str) -> (r: Option<&'a str>)
    requires
        c@.len() == 1,
    ensures
        match r {
            Some(x) => after_char(s@, c@[0]) == Some(x@),
            None => after_char(s@, c@[0]) is None,
        },
{
    assert(c@ =~= seq![c@[0]]);
    let n = s.unicode_len();
    match crate::text::find(s, c) {
        Some(i) => {
            proof { crate::text::lemma_first_occurrence_bound(s@, c@); }
            Some(s.substring_char(i + 1, n))
        },
        None => None,
    }
}

fn split_three(s: &str, c: &str) -> (r: Option<(String, String, String)>)
    requires
        c@.len() == 1,
    ensures
        match r {
            Some((a, b, d)) => three_pieces(s@, c@[0]) == Some((a@, b@, d@)),
            None => three_pieces(s@, c@[0]) is None,
        },
{
    match rest_after(s, c) {
        Some(r1) => match rest_after(r1, c) {
            Some(r2) => Some((piece_before(s, c), piece_before(r1, c), piece_before(r2, c))),
            None => None,
        },
        None => None,
    }
}

fn parts_of(line: &str) -> (r: Option<(String, String, String)>)
    ensures
        match r {
            Some((a, b, c)) => line_parts(line@) == Some((a@, b@, c@)),
            None => line_parts(line@) is None,
        },
{
    proof {
        reveal_strlit("\t");
        reveal_strlit(" ");
    }
    if crate::text::contains_char(line, '\t') {
        split_three(line, "\t")
    } else if crate::text::contains_char(line, '"') {
        split_quoted(line)
    } else {
        split_three(line, " ")
    }
}

fn first_is(s: &String, c: char) -> (r: bool)
    ensures
        r == (s@.len() > 0 && s@[0] == c),
{
    s.unicode_len() > 0 && s.get_char(0) == c
}

fn iri_checked(s: String) -> (r: Option<Iri>)
    ensures
        r matches Some(i) ==> iri_text_valid(s@) && iri_of_text(s@, i),
        r is None ==> !iri_text_valid(s@),
{
    let n = s.unicode_len();
    let stripped = n >= 2 && s.get_char(n - 2) == ' ' && s.get_char(n - 1) == '.';
    let text = if stripped { crate::term::drop_space_dots(s.as_str()) } else { s.clone() };
    let m = text.unicode_len();
    let ok = (m >= 1 && text.get_char(0) == '<' && text.get_char(m - 1) == '>') || crate::text::contains_char(text.as_str(), ':');
    if ok {
        Some(Iri::new(s))
    } else {
        None
    }
}

/// The triple a line states.
pub fn parse_line(line: &str) -> (r: Option<Triple>)
    ensures
        r matches Some(t) ==> line_valid(line@) && line_triple(line@, t),
        r is None ==> !line_valid(line@),
{
    let (s, p, o0) = match parts_of(line) {
        Some(x) => x,
        None => return None,
    };
    let n = o0.unicode_len();
    let o = if n >= 2 && o0.get_char(n - 2) == ' ' && o0.get_char(n - 1) == '.' {
        String::from_str(o0.substring_char(0, n - 2))
    } else {
        o0
    };
    let subject = if first_is(&s, '<') {
        match iri_checked(s) {
            Some(i) => Subject::I(i),
            None => return None,
        }
    } else {
        Subject::B
    };
    let predicate = match iri_checked(p) {
        Some(i) => Predicate::I(i),
        None => return None,
    };
    let object = if first_is(&o, '"') {
        Object::L(Literal::new(o))
    } else if first_is(&o, '<') {
        match iri_checked(o) {
            Some(i) => Object::I(i),
            None => return None,
        }
    } else {
        Object::B
    };
    Some(Triple { subject, predicate, object })
}

impl Database {
    /// Reads N-Triples text, one triple per line, in order. Fails on the
    /// first line that does not state a triple.
    pub fn from_ntriples_str(s: &str) -> (r: Result<Database, ParseDatabaseError>)
        ensures
            r is Ok <==> forall|k: int| 0 <= k < text_lines(s@).len() ==> line_valid(#[trigger] text_lines(s@)[k]),
            r matches Ok(db) ==> db@.len() == text_lines(s@).len() && forall|k: int|
                0 <= k < db@.len() ==> line_triple(#[trigger] text_lines(s@)[k], db@[k]),
            r matches Err(ParseDatabaseError::MalformedLine(k)) ==> k < text_lines(s@).len() && !line_valid(
                text_lines(s@)[k as int],
            ),
    {
        let lines = lines_of(s);
        let ghost ls = text_lines(s@);
        let mut db = Database::new();
        let mut k: usize = 0;
        while k < lines.len()
            invariant
                ls == text_lines(s@),
                lines@.map_values(|l: String| l@) == ls,
                k <= lines@.len(),
                db@.len() == k,
                forall|j: int| 0 <= j < k ==> line_valid(#[trigger] ls[j]) && line_triple(ls[j], db@[j]),
            decreases lines@.len() - k,
        {
            assert(ls[k as int] == lines@[k as int]@);
            match parse_line(lines[k].as_str()) {
                Some(t) => {
                    db.add(t);
                },
                None => {
                    return Err(ParseDatabaseError::MalformedLine(k));
                },
            }
            k = k + 1;
        }
        Ok(db)
    }
}

} // verus!
