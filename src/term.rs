//! RDF terms: IRIs, prefixed names and literals.

use vstd::prelude::*;
use vstd::string::*;
use crate::text::{find, first_occurrence, contains_char, remove_char, without_char};

verus! {

/// A prefixed name `ns:local`, with its absolute form once expanded.
#[derive(Debug, Clone)]
pub struct PrefixedName {
    pub ns: String,
    pub local: String,
    pub expanded: Option<String>,
}

/// An IRI: an absolute reference in angle brackets, or a prefixed name.
#[derive(Debug, Clone)]
pub enum Iri {
    IRIREF(String),
    PrefixedName(PrefixedName),
}

/// A decimal number: `mantissa / 10^scale`.
#[derive(Debug, Clone, Copy, PartialEq, Eq, Structural)]
pub struct Decimal {
    pub mantissa: i64,
    pub scale: u32,
}

/// The most fractional digits a decimal keeps.
pub const MAX_SCALE: u32 = 18;

pub open spec fn pow10(n: nat) -> int
    decreases n,
{
    if n == 0 { 1 } else { 10 * pow10((n - 1) as nat) }
}

/// `a < b` as numbers.
pub open spec fn decimal_lt(a: Decimal, b: Decimal) -> bool {
    a.mantissa * pow10(b.scale as nat) < b.mantissa * pow10(a.scale as nat)
}

pub proof fn lemma_pow10_bounds(n: nat)
    requires
        n <= 18,
    ensures
        1 <= pow10(n) <= 1_000_000_000_000_000_000,
    decreases 18 - n,
{
    lemma_pow10_positive(n);
    if n == 18 {
        reveal_with_fuel(pow10, 19);
    } else {
        lemma_pow10_bounds(n + 1);
    }
}

proof fn lemma_pow10_positive(n: nat)
    ensures
        1 <= pow10(n),
    decreases n,
{
    if n > 0 {
        lemma_pow10_positive((n - 1) as nat);
    }
}

fn pow10_exec(n: u32) -> (r: i128)
    requires
        n <= MAX_SCALE,
    ensures
        r == pow10(n as nat),
{
    let mut r: i128 = 1;
    let mut k: u32 = 0;
    while k < n
        invariant
            k <= n <= 18,
            r == pow10(k as nat),
        decreases n - k,
    {
        proof { lemma_pow10_bounds(k as nat); }
        r = r * 10;
        k = k + 1;
    }
    r
}

/// Whether `a < b` as numbers.
pub fn decimal_less(a: Decimal, b: Decimal) -> (r: bool)
    requires
        a.scale <= MAX_SCALE,
        b.scale <= MAX_SCALE,
    ensures
        r == decimal_lt(a, b),
{
    let pa = pow10_exec(a.scale);
    let pb = pow10_exec(b.scale);
    proof {
        lemma_pow10_bounds(a.scale as nat);
        lemma_pow10_bounds(b.scale as nat);
    }
    let x = a.mantissa as i128;
    let y = b.mantissa as i128;
    assert(-0x8000_0000_0000_0000 * 1_000_000_000_000_000_000 <= x * pb <= 0x8000_0000_0000_0000 * 1_000_000_000_000_000_000) by (nonlinear_arith)
        requires
            -0x8000_0000_0000_0000 <= x <= 0x8000_0000_0000_0000,
            1 <= pb <= 1_000_000_000_000_000_000,
    ;
    assert(-0x8000_0000_0000_0000 * 1_000_000_000_000_000_000 <= y * pa <= 0x8000_0000_0000_0000 * 1_000_000_000_000_000_000) by (nonlinear_arith)
        requires
            -0x8000_0000_0000_0000 <= y <= 0x8000_0000_0000_0000,
            1 <= pa <= 1_000_000_000_000_000_000,
    ;
    x * pb < y * pa
}

/// A literal: its lexical form, the decimal number it denotes when it reads
/// as one, and its datatype and language tags.
#[derive(Debug, Clone)]
pub struct Literal {
    pub value: String,
    pub parsed: Option<Decimal>,
    pub datatype: Option<String>,
    pub language: Option<String>,
}

/// Two IRIs are equal when both are absolute and identical, when one's
/// expansion is the other's absolute form, or when both share namespace and
/// local part.
pub open spec fn iri_eq(a: Iri, b: Iri) -> bool {
    match (a, b) {
        (Iri::IRIREF(x), Iri::IRIREF(y)) => x@ == y@,
        (Iri::IRIREF(x), Iri::PrefixedName(n)) => n.expanded matches Some(e) && e@ == x@,
        (Iri::PrefixedName(n), Iri::IRIREF(x)) => n.expanded matches Some(e) && e@ == x@,
        (Iri::PrefixedName(n1), Iri::PrefixedName(n2)) => n1.ns@ == n2.ns@ && n1.local@ == n2.local@,
    }
}

/// Literals are equal by lexical form.
pub open spec fn literal_eq(a: Literal, b: Literal) -> bool {
    a.value@ == b.value@
}

pub fn copy_opt_string(s: &Option<String>) -> (r: Option<String>)
    ensures
        r == *s,
{
    match s {
        Some(x) => Some(x.clone()),
        None => None,
    }
}

fn opt_string_is(a: &Option<String>, b: &String) -> (r: bool)
    ensures
        r == (a matches Some(e) && e@ == b@),
{
    match a {
        Some(x) => *x == *b,
        None => false,
    }
}

impl PrefixedName {
    pub fn copy(&self) -> (r: Self)
        ensures
            r == *self,
    {
        PrefixedName { ns: self.ns.clone(), local: self.local.clone(), expanded: copy_opt_string(&self.expanded) }
    }
}

/// The text without any " ." pair.
pub open spec fn without_space_dots(s: Seq<char>) -> Seq<char>
    decreases s.len(),
{
    if s.len() < 2 {
        s
    } else if s[0] == ' ' && s[1] == '.' {
        without_space_dots(s.subrange(2, s.len() as int))
    } else {
        seq![s[0]].add(without_space_dots(s.drop_first()))
    }
}

/// The text with a trailing " ." removed (with every other " ." as well).
pub open spec fn iri_text(s: Seq<char>) -> Seq<char> {
    if s.len() >= 2 && s[s.len() - 2] == ' ' && s[s.len() - 1] == '.' {
        without_space_dots(s)
    } else {
        s
    }
}

pub open spec fn is_bracketed(s: Seq<char>) -> bool {
    s.len() >= 1 && s[0] == '<' && s[s.len() - 1] == '>'
}

/// Whether a text names an IRI: an angle-bracket form or `ns:local`.
pub open spec fn iri_text_valid(s: Seq<char>) -> bool {
    is_bracketed(iri_text(s)) || iri_text(s).contains(':')
}

/// `r` is the IRI the text names, a prefixed name not yet expanded.
pub open spec fn iri_of_text(s: Seq<char>, r: Iri) -> bool {
    let t = iri_text(s);
    if is_bracketed(t) {
        r matches Iri::IRIREF(x) && x@ == t
    } else {
        r matches Iri::PrefixedName(n) && n.ns@ == before_char(t, ':') && n.local@ == second_piece(t, ':')
            && n.expanded is None
    }
}

/// The part of `s` before the first `c`, or `s` itself.
pub open spec fn before_char(s: Seq<char>, c: char) -> Seq<char> {
    match first_occurrence(s, seq![c]) {
        Some(i) => s.subrange(0, i),
        None => s,
    }
}

/// The part of `s` between its first and its second `c` (or the end).
pub open spec fn second_piece(s: Seq<char>, c: char) -> Seq<char> {
    match first_occurrence(s, seq![c]) {
        Some(i) => before_char(s.subrange(i + 1, s.len() as int), c),
        None => Seq::empty(),
    }
}

pub fn drop_space_dots(s: &str) -> (r: String)
    ensures
        r@ == without_space_dots(s@),
{
    let n = s.unicode_len();
    let mut out = String::new();
    let mut i: usize = 0;
    assert(s@.subrange(0, n as int) =~= s@);
    assert(out@ + s@ =~= s@);
    while i < n
        invariant
            n == s@.len(),
            i <= n,
            out@ + without_space_dots(s@.subrange(i as int, n as int)) == without_space_dots(s@),
        decreases n - i,
    {
        let rest = Ghost(s@.subrange(i as int, n as int));
        if i + 1 < n && s.get_char(i) == ' ' && s.get_char(i + 1) == '.' {
            assert(rest@.subrange(2, rest@.len() as int) =~= s@.subrange(i + 2, n as int));
            i = i + 2;
        } else {
            let piece = s.substring_char(i, i + 1);
            if i + 1 < n {
                assert(rest@.drop_first() =~= s@.subrange(i + 1, n as int));
            } else {
                assert(s@.subrange(i + 1, n as int) =~= Seq::<char>::empty());
            }
            assert(out@ + piece@ + without_space_dots(s@.subrange(i + 1, n as int)) =~= out@ + without_space_dots(rest@));
            out.append(piece);
            i = i + 1;
        }
    }
    assert(s@.subrange(n as int, n as int) =~= Seq::<char>::empty());
    assert(out@ + Seq::<char>::empty() =~= out@);
    assert(s@.subrange(0, n as int) =~= s@);
    out
}

fn text_before_char(s: &str, c: &str) -> (r: String)
    requires
        c@.len() == 1,
    ensures
        r@ == before_char(s@, c@[0]),
{
    assert(c@ =~= seq![c@[0]]);
    let n = s.unicode_len();
    match find(s, c) {
        Some(i) => {
            proof { crate::text::lemma_first_occurrence_bound(s@, c@); }
            String::from_str(s.substring_char(0, i))
        },
        None => {
            assert(s@.subrange(0, n as int) =~= s@);
            String::from_str(s)
        },
    }
}

fn text_second_piece(s: &str, c: &str) -> (r: String)
    requires
        c@.len() == 1,
    ensures
        r@ == second_piece(s@, c@[0]),
{
    assert(c@ =~= seq![c@[0]]);
    let n = s.unicode_len();
    match find(s, c) {
        Some(i) => {
            proof { crate::text::lemma_first_occurrence_bound(s@, c@); }
            text_before_char(s.substring_char(i + 1, n), c)
        },
        None => String::new(),
    }
}

impl Iri {
    /// Builds an IRI from its text: a trailing " ." is dropped, an
    /// angle-bracket form becomes an absolute reference, and `ns:local` a
    /// prefixed name that is not yet expanded.
    pub fn new(iri: String) -> (r: Self)
        requires
            iri_text_valid(iri@),
        ensures
            iri_of_text(iri@, r),
    {
        let n = iri.unicode_len();
        let text = if n >= 2 && iri.get_char(n - 2) == ' ' && iri.get_char(n - 1) == '.' {
            drop_space_dots(iri.as_str())
        } else {
            iri
        };
        let m = text.unicode_len();
        if m >= 1 && text.get_char(0) == '<' && text.get_char(m - 1) == '>' {
            Iri::IRIREF(text)
        } else {
            proof { reveal_strlit(":"); }
            let ns = text_before_char(text.as_str(), ":");
            let local = text_second_piece(text.as_str(), ":");
            proof { reveal_strlit(":"); }
            Iri::PrefixedName(PrefixedName { ns, local, expanded: None })
        }
    }

    pub fn copy(&self) -> (r: Self)
        ensures
            r == *self,
    {
        match self {
            Iri::IRIREF(s) => Iri::IRIREF(s.clone()),
            Iri::PrefixedName(n) => Iri::PrefixedName(n.copy()),
        }
    }

    /// Equality of IRIs as RDF terms.
    pub fn same_as(&self, other: &Iri) -> (r: bool)
        ensures
            r == iri_eq(*self, *other),
    {
        match (self, other) {
            (Iri::IRIREF(x), Iri::IRIREF(y)) => *x == *y,
            (Iri::IRIREF(x), Iri::PrefixedName(n)) => opt_string_is(&n.expanded, x),
            (Iri::PrefixedName(n), Iri::IRIREF(x)) => opt_string_is(&n.expanded, x),
            (Iri::PrefixedName(n1), Iri::PrefixedName(n2)) => n1.ns == n2.ns && n1.local == n2.local,
        }
    }
}

pub open spec fn is_digit(c: char) -> bool {
    '0' <= c && c <= '9'
}

pub open spec fn digits_value(s: Seq<char>) -> int
    decreases s.len(),
{
    if s.len() == 0 {
        0
    } else {
        digits_value(s.drop_last()) * 10 + (s.last() as int - '0' as int)
    }
}

pub open spec fn all_digits(s: Seq<char>) -> bool {
    s.len() > 0 && forall|i: int| 0 <= i < s.len() ==> is_digit(#[trigger] s[i])
}

/// The decimal a text spells: an optional sign, digits, and optionally a
/// point and more digits, with at most `MAX_SCALE` after the point and a
/// mantissa whose magnitude fits in `i64`.
pub open spec fn decimal_of_text(s: Seq<char>) -> Option<Decimal> {
    let signed = s.len() > 0 && (s[0] == '-' || s[0] == '+');
    let neg = s.len() > 0 && s[0] == '-';
    let body = if signed { s.drop_first() } else { s };
    let (digits, scale) = match first_occurrence(body, seq!['.']) {
        Some(i) => (body.subrange(0, i) + body.subrange(i + 1, body.len() as int), body.len() - i - 1),
        None => (body, 0int),
    };
    let point_ok = match first_occurrence(body, seq!['.']) {
        Some(i) => i > 0 && i + 1 < body.len(),
        None => true,
    };
    if point_ok && all_digits(digits) && scale <= MAX_SCALE && digits_value(digits) <= 0x7fff_ffff_ffff_ffff {
        Some(Decimal { mantissa: (if neg { -digits_value(digits) } else { digits_value(digits) }) as i64, scale: scale as u32 })
    } else {
        None
    }
}

/// The number a literal's lexical form carries, once quotes are removed.
pub open spec fn numeric_value(s: Seq<char>) -> Option<Decimal> {
    decimal_of_text(without_char(s, '"'))
}

proof fn lemma_digits_monotone(s: Seq<char>, k: int)
    requires
        0 <= k <= s.len(),
        forall|i: int| 0 <= i < s.len() ==> is_digit(#[trigger] s[i]),
    ensures
        digits_value(s.subrange(0, k)) <= digits_value(s),
        0 <= digits_value(s.subrange(0, k)),
    decreases s.len(),
{
    if s.len() == 0 {
        assert(s.subrange(0, k) =~= s);
    } else if k == s.len() {
        assert(s.subrange(0, k) =~= s);
        lemma_digits_monotone(s.drop_last(), 0);
        assert(s.drop_last().subrange(0, 0) =~= s.subrange(0, 0));
    } else {
        assert(s.drop_last().subrange(0, k) =~= s.subrange(0, k));
        lemma_digits_monotone(s.drop_last(), k);
        lemma_digits_monotone(s.drop_last(), s.len() - 1);
        assert(s.drop_last().subrange(0, s.len() - 1) =~= s.drop_last());
        assert(is_digit(s[s.len() - 1]));
    }
}

/// Reads an unsigned run of digits from `s[from..]`, if its value fits in `i64`.
fn read_digits(s: &str, n: usize, from: usize) -> (r: Option<i64>)
    requires
        n == s@.len(),
        from <= n,
    ensures
        r matches Some(v) ==> 0 <= v && all_digits(s@.subrange(from as int, n as int)) && v == digits_value(
            s@.subrange(from as int, n as int),
        ),
        r is None ==> !all_digits(s@.subrange(from as int, n as int)) || digits_value(
            s@.subrange(from as int, n as int),
        ) > 0x7fff_ffff_ffff_ffff,
{
    let ghost t = s@.subrange(from as int, n as int);
    if from == n {
        return None;
    }
    let mut acc: u64 = 0;
    let mut i: usize = from;
    while i < n
        invariant
            n == s@.len(),
            from <= i <= n,
            t == s@.subrange(from as int, n as int),
            forall|j: int| 0 <= j < i - from ==> is_digit(#[trigger] t[j]),
            acc == digits_value(t.subrange(0, i - from)),
            acc <= 0x7fff_ffff_ffff_ffff,
        decreases n - i,
    {
        let c = s.get_char(i);
        if !('0' <= c && c <= '9') {
            assert(t[i - from] == c);
            return None;
        }
        let d = (c as u32 - '0' as u32) as u64;
        assert(t.subrange(0, i + 1 - from).drop_last() =~= t.subrange(0, i - from));
        assert(t.subrange(0, i + 1 - from).last() == c);
        if acc > 922_337_203_685_477_580 || (acc == 922_337_203_685_477_580 && d > 7) {
            proof {
                assert forall|j: int| 0 <= j < i + 1 - from implies is_digit(#[trigger] t.subrange(0, i + 1 - from)[j]) by {
                    if j < i - from { assert(t.subrange(0, i + 1 - from)[j] == t[j]); }
                }
                if all_digits(t) {
                    lemma_digits_monotone(t, i + 1 - from);
                }
            }
            return None;
        }
        acc = acc * 10 + d;
        i = i + 1;
    }
    assert(t.subrange(0, n - from) =~= t);
    Some(acc as i64)
}

/// Parses the decimal that `s` spells.
pub fn parse_decimal(s: &str) -> (r: Option<Decimal>)
    ensures
        r == decimal_of_text(s@),
        r matches Some(d) ==> d.scale <= MAX_SCALE,
{
    let n = s.unicode_len();
    let signed = n > 0 && (s.get_char(0) == '-' || s.get_char(0) == '+');
    let neg = n > 0 && s.get_char(0) == '-';
    let start: usize = if signed { 1 } else { 0 };
    let body = s.substring_char(start, n);
    if signed {
        assert(body@ =~= s@.drop_first());
    } else {
        assert(body@ =~= s@);
    }
    let m = body.unicode_len();
    proof { reveal_strlit("."); }
    let (digits, scale): (String, usize) = match find(body, ".") {
        Some(i) => {
            proof {
                assert("."@ =~= seq!['.']);
                crate::text::lemma_first_occurrence_bound(body@, "."@);
            }
            if i == 0 || i + 1 >= m {
                return None;
            }
            let joined = String::from_str(body.substring_char(0, i)).concat(body.substring_char(i + 1, m));
            (joined, m - i - 1)
        },
        None => {
            proof { assert("."@ =~= seq!['.']); }
            (String::from_str(body), 0)
        },
    };
    if scale > 18 {
        return None;
    }
    let k = digits.unicode_len();
    assert(digits@.subrange(0, k as int) =~= digits@);
    match read_digits(digits.as_str(), k, 0) {
        Some(v) => Some(Decimal { mantissa: if neg { -v } else { v }, scale: scale as u32 }),
        None => None,
    }
}

/// The lexical form of a literal: the raw text up to a datatype marker `^^`,
/// and then up to a language marker `@`.
pub open spec fn literal_value(raw: Seq<char>) -> Seq<char> {
    let v = before_datatype(raw);
    if v.contains('@') { before_char(raw, '@') } else { v }
}

/// The raw text before the first `^^`.
pub open spec fn before_datatype(raw: Seq<char>) -> Seq<char> {
    match first_occurrence(raw, seq!['^', '^']) {
        Some(i) => raw.subrange(0, i),
        None => raw,
    }
}

/// The datatype tag: what follows the first `^^`, up to the next one.
pub open spec fn literal_datatype(raw: Seq<char>) -> Option<Seq<char>> {
    match first_occurrence(raw, seq!['^', '^']) {
        Some(i) => {
            let rest = raw.subrange(i + 2, raw.len() as int);
            Some(
                match first_occurrence(rest, seq!['^', '^']) {
                    Some(j) => rest.subrange(0, j),
                    None => rest,
                },
            )
        },
        None => None,
    }
}

/// The language tag: what follows the first `@` up to the next one, when
/// the text before any `^^` holds an `@`.
pub open spec fn literal_language(raw: Seq<char>) -> Option<Seq<char>> {
    if before_datatype(raw).contains('@') { Some(second_piece(raw, '@')) } else { None }
}

pub open spec fn opt_text(o: Option<String>) -> Option<Seq<char>> {
    match o {
        Some(s) => Some(s@),
        None => None,
    }
}

impl Literal {
    /// Builds a literal from its raw text. The lexical form is the text before
    /// any `^^` (and before any `@`); the datatype is what follows the first
    /// `^^` up to the next one; the language is what follows the first `@` up
    /// to the next one. The literal is numeric when its lexical form, without
    /// quotes, spells an integer.
    pub fn new(raw: String) -> (r: Self)
        ensures
            r.value@ == literal_value(raw@),
            opt_text(r.datatype) == literal_datatype(raw@),
            opt_text(r.language) == literal_language(raw@),
            r.parsed == numeric_value(r.value@),
            r.parsed matches Some(d) ==> d.scale <= MAX_SCALE,
    {
        let mut value = raw.clone();
        let mut datatype: Option<String> = None;
        let mut language: Option<String> = None;
        proof {
            reveal_strlit("^^");
            reveal_strlit("@");
            assert("^^"@ =~= seq!['^', '^']);
            assert("@"@[0] == '@');
        }
        match find(raw.as_str(), "^^") {
            Some(i) => {
                proof {
                    reveal_strlit("^^");
                    crate::text::lemma_first_occurrence_bound(raw@, "^^"@);
                }
                let n = raw.unicode_len();
                value = String::from_str(raw.substring_char(0, i));
                let rest = raw.substring_char(i + 2, n);
                datatype = Some(match find(rest, "^^") {
                    Some(j) => {
                        proof { crate::text::lemma_first_occurrence_bound(rest@, "^^"@); }
                        String::from_str(rest.substring_char(0, j))
                    },
                    None => String::from_str(rest),
                });
            },
            None => {
                proof { reveal_strlit("^^"); }
            },
        }
        if contains_char(value.as_str(), '@') {
            proof { reveal_strlit("@"); }
            value = text_before_char(raw.as_str(), "@");
            language = Some(text_second_piece(raw.as_str(), "@"));
        }
        let plain = remove_char(value.as_str(), '"');
        let parsed = parse_decimal(plain.as_str());
        Literal { value, parsed, datatype, language }
    }

    pub fn copy(&self) -> (r: Self)
        ensures
            r == *self,
    {
        Literal {
            value: self.value.clone(),
            parsed: self.parsed,
            datatype: copy_opt_string(&self.datatype),
            language: copy_opt_string(&self.language),
        }
    }

    /// Equality of literals: by lexical form.
    pub fn same_as(&self, other: &Literal) -> (r: bool)
        ensures
            r == literal_eq(*self, *other),
    {
        self.value == other.value
    }
}

} // verus!
