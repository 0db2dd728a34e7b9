use vstd::prelude::*;
use vstd::string::StringExecFns;
use crate::diag::{DiagCode, Diagnostic};
use crate::token::{Token, TokenRange};

verus! {

/// A letter case discipline for identifiers.
#[derive(Clone, Copy, Debug, PartialEq, Eq, Structural)]
pub enum Case {
    Snake,
    ScreamingSnake,
    UpperCamel,
    LowerCamel,
}

impl Default for Case {
    /// The default discipline is snake case.
    fn default() -> (c: Case)
        ensures
            c == Case::Snake,
    {
        Case::Snake
    }
}

/// The label of a case discipline, as diagnostics spell it.
pub open spec fn case_label(c: Case) -> Seq<char> {
    match c {
        Case::Snake => "snake_case"@,
        Case::ScreamingSnake => "SCREAMING_SNAKE_CASE"@,
        Case::UpperCamel => "UpperCamelCase"@,
        Case::LowerCamel => "lowerCamelCase"@,
    }
}

impl Case {
    /// The label of this discipline, as diagnostics spell it.
    pub fn name(&self) -> (s: &'static str)
        ensures
            s@ == case_label(*self),
    {
        match self {
            Case::Snake => "snake_case",
            Case::ScreamingSnake => "SCREAMING_SNAKE_CASE",
            Case::UpperCamel => "UpperCamelCase",
            Case::LowerCamel => "lowerCamelCase",
        }
    }
}

pub open spec fn is_lower(c: char) -> bool {
    'a' <= c <= 'z'
}

pub open spec fn is_upper(c: char) -> bool {
    'A' <= c <= 'Z'
}

pub open spec fn is_digit(c: char) -> bool {
    '0' <= c <= '9'
}

/// What it means for an identifier to follow a case discipline: snake
/// and screaming-snake admit only their own letters, digits and
/// underscores; the camel cases fix the first letter and forbid
/// underscores.
pub open spec fn case_matches(c: Case, s: Seq<char>) -> bool {
    match c {
        Case::Snake => forall|i: int|
            0 <= i < s.len() ==> is_lower(#[trigger] s[i]) || is_digit(s[i]) || s[i] == '_',
        Case::ScreamingSnake => forall|i: int|
            0 <= i < s.len() ==> is_upper(#[trigger] s[i]) || is_digit(s[i]) || s[i] == '_',
        Case::UpperCamel => s.len() > 0 && is_upper(s[0]) && (forall|i: int|
            0 <= i < s.len() ==> #[trigger] s[i] != '_'),
        Case::LowerCamel => s.len() > 0 && is_lower(s[0]) && (forall|i: int|
            0 <= i < s.len() ==> #[trigger] s[i] != '_'),
    }
}

/// Exec check matching `case_matches`.
#[verifier::loop_isolation(false)]
pub fn check_case(c: Case, s: &str) -> (r: bool)
    ensures
        r == case_matches(c, s@),
{
    let n = s.unicode_len();
    match c {
        Case::Snake => {
            for i in 0..n
                invariant
                    forall|j: int|
                        0 <= j < i ==> is_lower(#[trigger] s@[j]) || is_digit(s@[j]) || s@[j]
                            == '_',
            {
                let ch = s.get_char(i);
                if !(('a' <= ch && ch <= 'z') || ('0' <= ch && ch <= '9') || ch == '_') {
                    return false;
                }
            }
            true
        },
        Case::ScreamingSnake => {
            for i in 0..n
                invariant
                    forall|j: int|
                        0 <= j < i ==> is_upper(#[trigger] s@[j]) || is_digit(s@[j]) || s@[j]
                            == '_',
            {
                let ch = s.get_char(i);
                if !(('A' <= ch && ch <= 'Z') || ('0' <= ch && ch <= '9') || ch == '_') {
                    return false;
                }
            }
            true
        },
        Case::UpperCamel => {
            if n == 0 {
                return false;
            }
            let first = s.get_char(0);
            if !('A' <= first && first <= 'Z') {
                return false;
            }
            for i in 0..n
                invariant
                    forall|j: int| 0 <= j < i ==> #[trigger] s@[j] != '_',
            {
                let ch = s.get_char(i);
                if ch == '_' {
                    return false;
                }
            }
            true
        },
        Case::LowerCamel => {
            if n == 0 {
                return false;
            }
            let first = s.get_char(0);
            if !('a' <= first && first <= 'z') {
                return false;
            }
            for i in 0..n
                invariant
                    forall|j: int| 0 <= j < i ==> #[trigger] s@[j] != '_',
            {
                let ch = s.get_char(i);
                if ch == '_' {
                    return false;
                }
            }
            true
        },
    }
}

/// Whether one character sequence starts with another.
pub open spec fn starts_with(s: Seq<char>, p: Seq<char>) -> bool {
    p.len() <= s.len() && s.subrange(0, p.len() as int) == p
}

/// Whether one character sequence ends with another.
pub open spec fn ends_with(s: Seq<char>, p: Seq<char>) -> bool {
    p.len() <= s.len() && s.subrange(s.len() - p.len(), s.len() as int) == p
}

/// Exec check matching `starts_with`.
#[verifier::loop_isolation(false)]
pub fn check_prefix(s: &str, p: &str) -> (r: bool)
    ensures
        r == starts_with(s@, p@),
{
    let n = s.unicode_len();
    let m = p.unicode_len();
    if m > n {
        proof {
            assert(!starts_with(s@, p@));
        }
        return false;
    }
    for i in 0..m
        invariant
            m <= n,
            forall|j: int| 0 <= j < i ==> s@[j] == p@[j],
    {
        if s.get_char(i) != p.get_char(i) {
            proof {
                assert(s@.subrange(0, p@.len() as int)[i as int] != p@[i as int]);
            }
            return false;
        }
    }
    proof {
        assert(s@.subrange(0, p@.len() as int) =~= p@);
    }
    true
}

/// Exec check matching `ends_with`.
#[verifier::loop_isolation(false)]
pub fn check_suffix(s: &str, p: &str) -> (r: bool)
    ensures
        r == ends_with(s@, p@),
{
    let n = s.unicode_len();
    let m = p.unicode_len();
    if m > n {
        proof {
            assert(!ends_with(s@, p@));
        }
        return false;
    }
    let off = n - m;
    for i in 0..m
        invariant
            m <= n,
            off == n - m,
            forall|j: int| 0 <= j < i ==> s@[off + j] == p@[j],
    {
        if s.get_char(off + i) != p.get_char(i) {
            proof {
                assert(s@.subrange(s@.len() - p@.len(), s@.len() as int)[i as int] != p@[
                    i as int]);
            }
            return false;
        }
    }
    proof {
        assert(s@.subrange(s@.len() - p@.len(), s@.len() as int) =~= p@);
    }
    true
}

/// Whether a regular expression matches somewhere in a text. The
/// result depends on the pattern and the text alone.
pub uninterp spec fn regex_match_of(pattern: Seq<char>, text: Seq<char>) -> bool;

/// Whether a pattern is a well-formed regular expression: compilation
/// depends on the pattern alone.
pub uninterp spec fn regex_compiles(pattern: Seq<char>) -> bool;

/// Relies on regex::Regex::new and regex::Regex::is_match: compiles
/// the pattern and tests it against the text, yielding nothing exactly
/// when the pattern does not compile.
#[verifier::external_body]
fn regex_is_match(pattern: &str, text: &str) -> (r: Option<bool>)
    ensures
        r is Some <==> regex_compiles(pattern@),
        r matches Option::Some(b) ==> b == regex_match_of(pattern@, text@),
{
    match regex::Regex::new(pattern) {
        Ok(re) => Some(re.is_match(text)),
        Err(_) => None,
    }
}

/// The naming rule of one identifier class: an optional case
/// discipline, an optional required prefix and suffix, and optional
/// forbidden and required patterns.
#[derive(Clone, Debug, Default)]
pub struct NamingRule {
    pub case: Option<Case>,
    pub prefix: Option<String>,
    pub suffix: Option<String>,
    pub re_forbidden: Option<String>,
    pub re_required: Option<String>,
}

/// The lint-naming configuration: one rule per identifier class the
/// project configures, keyed by the class name.
#[derive(Clone, Debug, Default)]
pub struct Lint {
    pub naming: Vec<(String, NamingRule)>,
}

/// The labels of the clauses an identifier violates, in rule order:
/// the case discipline, the required prefix, the required suffix, a
/// forbidden pattern that matches, and a required pattern that does
/// not. A pattern that does not compile checks nothing.
pub open spec fn rule_findings(rule: NamingRule, name: Seq<char>) -> Seq<Seq<char>> {
    let cf: Seq<Seq<char>> = if rule.case is Some && !case_matches(rule.case->Some_0, name) {
        seq![case_label(rule.case->Some_0)]
    } else {
        Seq::empty()
    };
    let pf: Seq<Seq<char>> = if rule.prefix matches Option::Some(p) && !starts_with(name, p@) {
        seq!["prefix"@]
    } else {
        Seq::empty()
    };
    let sf: Seq<Seq<char>> = if rule.suffix matches Option::Some(p) && !ends_with(name, p@) {
        seq!["suffix"@]
    } else {
        Seq::empty()
    };
    let ff: Seq<Seq<char>> = if rule.re_forbidden matches Option::Some(p) && regex_compiles(p@)
        && regex_match_of(p@, name) {
        seq!["forbidden"@]
    } else {
        Seq::empty()
    };
    let rf: Seq<Seq<char>> = if rule.re_required matches Option::Some(p) && regex_compiles(p@)
        && !regex_match_of(p@, name) {
        seq!["required"@]
    } else {
        Seq::empty()
    };
    cf + pf + sf + ff + rf
}

/// Whether a diagnostic is the naming warning for one violated clause.
pub open spec fn naming_diag_ok(d: Diagnostic, name: Seq<char>, label: Seq<char>, tok: Token) -> bool {
    &&& d.code == DiagCode::InvalidIdentifier
    &&& d.severity == crate::diag::severity_of(DiagCode::InvalidIdentifier)
    &&& d.fields@.len() == 2
    &&& d.fields@[0]@ == name
    &&& d.fields@[1]@ == label
    &&& d.primary == (TokenRange { beg: tok, end: tok })
}

/// Checks one identifier against one naming rule: exactly one warning
/// per violated clause, in rule order.
pub fn check_identifier(rule: &NamingRule, name: &str, token: &Token) -> (out: Vec<Diagnostic>)
    ensures
        out@.len() == rule_findings(*rule, name@).len(),
        forall|i: int|
            0 <= i < out@.len() ==> naming_diag_ok(
                #[trigger] out@[i],
                name@,
                rule_findings(*rule, name@)[i],
                *token,
            ),
{
    let r = TokenRange { beg: *token, end: *token };
    let mut out: Vec<Diagnostic> = Vec::new();
    let ghost fs = rule_findings(*rule, name@);
    match &rule.case {
        Option::Some(c) => {
            if !check_case(*c, name) {
                out.push(Diagnostic::invalid_identifier(name, c.name(), &r));
            }
        },
        Option::None => {},
    }
    let ghost cf: Seq<Seq<char>> = if rule.case is Some && !case_matches(
        rule.case->Some_0,
        name@,
    ) {
        seq![case_label(rule.case->Some_0)]
    } else {
        Seq::empty()
    };
    match &rule.prefix {
        Option::Some(p) => {
            if !check_prefix(name, p.as_str()) {
                out.push(Diagnostic::invalid_identifier(name, "prefix", &r));
            }
        },
        Option::None => {},
    }
    let ghost pf: Seq<Seq<char>> = if rule.prefix is Some && !starts_with(
        name@,
        rule.prefix->Some_0@,
    ) {
        seq!["prefix"@]
    } else {
        Seq::empty()
    };
    match &rule.suffix {
        Option::Some(p) => {
            if !check_suffix(name, p.as_str()) {
                out.push(Diagnostic::invalid_identifier(name, "suffix", &r));
            }
        },
        Option::None => {},
    }
    let ghost sf: Seq<Seq<char>> = if rule.suffix is Some && !ends_with(
        name@,
        rule.suffix->Some_0@,
    ) {
        seq!["suffix"@]
    } else {
        Seq::empty()
    };
    match &rule.re_forbidden {
        Option::Some(p) => {
            match regex_is_match(p.as_str(), name) {
                Option::Some(true) => {
                    out.push(Diagnostic::invalid_identifier(name, "forbidden", &r));
                },
                _ => {},
            }
        },
        Option::None => {},
    }
    let ghost ff: Seq<Seq<char>> = if rule.re_forbidden is Some && regex_compiles(
        rule.re_forbidden->Some_0@,
    ) && regex_match_of(rule.re_forbidden->Some_0@, name@) {
        seq!["forbidden"@]
    } else {
        Seq::empty()
    };
    match &rule.re_required {
        Option::Some(p) => {
            match regex_is_match(p.as_str(), name) {
                Option::Some(false) => {
                    out.push(Diagnostic::invalid_identifier(name, "required", &r));
                },
                _ => {},
            }
        },
        Option::None => {},
    }
    let ghost rf: Seq<Seq<char>> = if rule.re_required is Some && regex_compiles(
        rule.re_required->Some_0@,
    ) && !regex_match_of(rule.re_required->Some_0@, name@) {
        seq!["required"@]
    } else {
        Seq::empty()
    };
    proof {
        assert(fs == cf + pf + sf + ff + rf);
        assert forall|i: int| 0 <= i < out@.len() implies naming_diag_ok(
            #[trigger] out@[i],
            name@,
            fs[i],
            *token,
        ) by {
            assert(fs[i] == (cf + pf + sf + ff + rf)[i]);
        }
    }
    out
}

} // verus!
