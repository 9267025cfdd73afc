//! The fixed vocabularies of a transcript: annotation columns, grade tokens
//! and term names.

use vstd::prelude::*;
use crate::text::{
    chars_of, contains_text, count_char, count_of, has_substring, run_end, scan_run, text_eq,
};

verus! {

/// The term of a semester.
#[derive(Clone, Copy, Debug, PartialEq, Eq, Hash, Structural)]
pub enum Term {
    Spring,
    Summer,
    Fall,
}

/// The texts of a list of strings.
pub open spec fn texts(row: Seq<&str>) -> Seq<Seq<char>> {
    Seq::new(row.len(), |i: int| row[i]@)
}

/// The writing-, quantitative- and delivery-qualifier tokens. A course that
/// carries one has an extra column, which shifts every later column.
pub open spec fn qualifier_tokens() -> Seq<Seq<char>> {
    seq!["W"@, "Q"@, "Online"@]
}

/// The breadth-requirement tags; a cell that contains one is an extra column.
pub open spec fn breadth_tags() -> Seq<Seq<char>> {
    seq!["B-Sci"@, "B-Hum"@, "B-Soc"@]
}

/// The closed set of grade tokens: passing grades, temporary grades, forms of
/// failing, and notations.
pub open spec fn grade_tokens() -> Seq<Seq<char>> {
    seq![
        "A+"@, "A"@, "A-"@, "B+"@, "B"@, "B-"@, "C+"@, "C"@, "C-"@, "D"@, "P"@,
        "DE"@, "GN"@, "IP"@,
        "F"@, "FD"@, "N"@,
        "AE"@, "AU"@, "CC"@, "CF"@, "CN"@, "CR"@, "FX"@, "NC"@, "WD"@, "WE"@, "TR"@,
    ]
}

/// Whether `s` is a qualifier token.
pub open spec fn is_qualifier_text(s: Seq<char>) -> bool {
    qualifier_tokens().contains(s)
}

/// Whether `s` contains a breadth-requirement tag.
pub open spec fn is_breadth_text(s: Seq<char>) -> bool {
    exists|i: int| 0 <= i < breadth_tags().len() && has_substring(s, #[trigger] breadth_tags()[i])
}

/// Whether `s` belongs to a permanent-date annotation: the label itself, or a
/// date, which has exactly three parts between hyphens.
pub open spec fn is_perm_dt_text(s: Seq<char>) -> bool {
    s == "Perm.Dt:"@ || count_of(s, '-') == 2
}

/// Whether `s` is a recognised grade.
pub open spec fn is_grade_text(s: Seq<char>) -> bool {
    grade_tokens().contains(s)
}

/// The term that `s` names, if it names one.
pub open spec fn term_named(s: Seq<char>) -> Option<Term> {
    if s == "Spring"@ {
        Some(Term::Spring)
    } else if s == "Summer"@ {
        Some(Term::Summer)
    } else if s == "Fall"@ {
        Some(Term::Fall)
    } else {
        None
    }
}

/// The name of a term.
pub open spec fn term_text(t: Term) -> Seq<char> {
    match t {
        Term::Spring => "Spring"@,
        Term::Summer => "Summer"@,
        Term::Fall => "Fall"@,
    }
}

/// The year and term that a header announces. A header holds exactly two
/// tokens, set apart and surrounded by separators only: the year, and the
/// name of a term. A text with a third token is no header.
pub open spec fn year_term(s: Seq<char>) -> Option<(Seq<char>, Term)> {
    let a = run_end(s, 0, true);
    let b = run_end(s, a, false);
    let c = run_end(s, b, true);
    let d = run_end(s, c, false);
    let e = run_end(s, d, true);
    if a < b && c < d && e == s.len() && term_named(s.subrange(c, d)) is Some {
        Some((s.subrange(a, b), term_named(s.subrange(c, d)).unwrap()))
    } else {
        None
    }
}

impl Term {
    /// The name of the term, as a header writes it.
    pub fn name(&self) -> (r: &'static str)
        ensures
            r@ == term_text(*self),
    {
        match self {
            Term::Spring => "Spring",
            Term::Summer => "Summer",
            Term::Fall => "Fall",
        }
    }

    /// The term that `s` names, if it names one.
    pub fn parse(s: &str) -> (r: Option<Term>)
        ensures
            r == term_named(s@),
    {
        if text_eq(s, "Spring") {
            Some(Term::Spring)
        } else if text_eq(s, "Summer") {
            Some(Term::Summer)
        } else if text_eq(s, "Fall") {
            Some(Term::Fall)
        } else {
            None
        }
    }
}

/// Whether `s` is one of `options`.
fn is_one_of(s: &str, options: &Vec<&str>) -> (r: bool)
    ensures
        r == texts(options@).contains(s@),
{
    let mut i: usize = 0;
    while i < options.len()
        invariant
            i <= options.len(),
            forall|j: int| 0 <= j < i ==> texts(options@)[j] != s@,
        decreases options.len() - i,
    {
        if text_eq(s, options[i]) {
            proof {
                assert(texts(options@)[i as int] == s@);
            }
            return true;
        }
        i += 1;
    }
    false
}

/// Whether `s` is a qualifier token.
pub fn is_qualifier(s: &str) -> (r: bool)
    ensures
        r == is_qualifier_text(s@),
{
    let tokens = vec!["W", "Q", "Online"];
    proof {
        assert(texts(tokens@) =~= qualifier_tokens());
    }
    is_one_of(s, &tokens)
}

/// Whether `s` contains a breadth-requirement tag.
pub fn matches_breadth(s: &str) -> (r: bool)
    ensures
        r == is_breadth_text(s@),
{
    let tags = vec!["B-Sci", "B-Hum", "B-Soc"];
    proof {
        assert(texts(tags@) =~= breadth_tags());
    }
    let mut i: usize = 0;
    while i < tags.len()
        invariant
            i <= tags.len(),
            texts(tags@) == breadth_tags(),
            forall|j: int| 0 <= j < i ==> !has_substring(s@, #[trigger] breadth_tags()[j]),
        decreases tags.len() - i,
    {
        if contains_text(s, tags[i]) {
            proof {
                assert(texts(tags@)[i as int] == tags@[i as int]@);
            }
            return true;
        }
        proof {
            assert(texts(tags@)[i as int] == tags@[i as int]@);
        }
        i += 1;
    }
    false
}

/// Whether `s` belongs to a permanent-date annotation.
pub fn is_perm_dt(s: &str) -> (r: bool)
    ensures
        r == is_perm_dt_text(s@),
{
    text_eq(s, "Perm.Dt:") || count_char(s, '-') == 2
}

/// Whether `s` is a recognised grade.
pub fn is_grade(s: &str) -> (r: bool)
    ensures
        r == is_grade_text(s@),
{
    let tokens = vec![
        "A+", "A", "A-", "B+", "B", "B-", "C+", "C", "C-", "D", "P",
        "DE", "GN", "IP",
        "F", "FD", "N",
        "AE", "AU", "CC", "CF", "CN", "CR", "FX", "NC", "WD", "WE", "TR",
    ];
    proof {
        assert(texts(tokens@) =~= grade_tokens());
    }
    is_one_of(s, &tokens)
}

/// The year and term that a header announces, if `s` is a term header.
pub fn get_year_term(s: &str) -> (r: Option<(&str, Term)>)
    ensures
        match year_term(s@) {
            Some((year, term)) => r is Some && r.unwrap().0@ == year && r.unwrap().1 == term,
            None => r is None,
        },
{
    let v = chars_of(s);
    let a = scan_run(&v, 0, true);
    let b = scan_run(&v, a, false);
    let c = scan_run(&v, b, true);
    let d = scan_run(&v, c, false);
    let e = scan_run(&v, d, true);
    if a < b && c < d && e == v.len() {
        match Term::parse(s.substring_char(c, d)) {
            Some(term) => Some((s.substring_char(a, b), term)),
            None => None,
        }
    } else {
        None
    }
}

} // verus!
