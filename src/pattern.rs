//! Regular expressions, compiled once and matched against lines of text.

use vstd::prelude::*;

verus! {

#[verifier::external_type_specification]
#[verifier::external_body]
pub struct ExRegex(regex::Regex);

#[verifier::external_type_specification]
#[verifier::external_body]
pub struct ExRegexError(regex::Error);

/// What the capture groups of `pattern` hold at its first match in `text`: none if
/// it does not match; else group 0 (the whole match) first, and `None` for each group
/// that took no part in the match.
pub uninterp spec fn regex_captures(pattern: Seq<char>, text: Seq<char>) -> Option<
    Seq<Option<Seq<char>>>,
>;

/// Whether `pattern` compiles: it is a valid pattern whose compiled form stays
/// within the default size limit.
pub uninterp spec fn regex_compiles(pattern: Seq<char>) -> bool;

/// A compiled regular expression, with the text it was compiled from.
pub struct LinePattern {
    source: String,
    re: regex::Regex,
}

pub open spec fn opt_view(o: Option<String>) -> Option<Seq<char>> {
    match o {
        Some(s) => Some(s@),
        None => None,
    }
}

pub open spec fn captures_view(v: Seq<Option<String>>) -> Seq<Option<Seq<char>>> {
    v.map_values(|o: Option<String>| opt_view(o))
}

impl LinePattern {
    /// The text the pattern was compiled from.
    pub closed spec fn text(&self) -> Seq<char> {
        self.source@
    }
}

/// Relies on `regex::Regex::new`: compiles `source`, or says why it cannot; whether
/// it succeeds depends on `source` alone.
#[verifier::external_body]
pub fn compile_pattern(source: &str) -> (r: Result<LinePattern, regex::Error>)
    ensures
        r is Ok <==> regex_compiles(source@),
        r is Ok ==> r->Ok_0.text() == source@,
{
    match regex::Regex::new(source) {
        Ok(re) => Ok(LinePattern { source: source.to_string(), re }),
        Err(e) => Err(e),
    }
}

/// Relies on `regex::Regex::captures`: the groups of the first match, group 0 (the
/// whole match) always present.
#[verifier::external_body]
pub fn captures(p: &LinePattern, text: &str) -> (r: Option<Vec<Option<String>>>)
    ensures
        match r {
            None => regex_captures(p.text(), text@) is None,
            Some(c) => {
                &&& regex_captures(p.text(), text@) == Some(captures_view(c@))
                &&& c@.len() >= 1
                &&& c@[0] is Some
            },
        },
{
    let caps = p.re.captures(text)?;
    let mut groups = Vec::new();
    for m in caps.iter() {
        groups.push(match m {
            Some(x) => Some(x.as_str().to_string()),
            None => None,
        });
    }
    Some(groups)
}

/// Whether `pattern` matches somewhere in `text`.
pub open spec fn pattern_matches(pattern: Seq<char>, text: Seq<char>) -> bool {
    regex_captures(pattern, text) is Some
}

/// Whether the pattern matches somewhere in `text`.
pub fn is_match(p: &LinePattern, text: &str) -> (r: bool)
    ensures
        r == pattern_matches(p.text(), text@),
{
    captures(p, text).is_some()
}

} // verus!
