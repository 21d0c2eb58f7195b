//! The two regular expressions of the page parser, compiled once and handed
//! to the functions that search with them.
//!
//! Matching is done by the `regex` crate. What a search returns is not
//! spelled out here: it is named, as a function of the expression's text and
//! of the text searched, and the parsers are stated over those names.

use vstd::prelude::*;
use vstd::string::StringSliceAdditionalSpecFns;
use vstd::utf8::is_char_boundary;

verus! {

#[verifier::external_type_specification]
#[verifier::external_body]
pub struct ExRegex(regex::Regex);

#[verifier::external_type_specification]
#[verifier::external_body]
pub struct ExRegexError(regex::Error);

/// Whether the `regex` crate accepts a text as an expression
/// (`regex::Regex::new` returns `Ok`).
pub uninterp spec fn compiles(pattern: Seq<char>) -> bool;

/// The text that a compiled expression was compiled from
/// (`regex::Regex::as_str`).
pub uninterp spec fn pattern_of(regex: regex::Regex) -> Seq<char>;

/// The leftmost match of an expression in a text, as the byte offsets of its
/// start and its end in the text's UTF-8 form (`regex::Regex::find`).
pub uninterp spec fn first_match(pattern: Seq<char>, haystack: Seq<char>) -> Option<(int, int)>;

/// The capture groups of the leftmost match of an expression in a text, the
/// whole match first; a group that took no part in the match is `None`
/// (`regex::Regex::captures`).
pub uninterp spec fn first_captures(pattern: Seq<char>, haystack: Seq<char>) -> Option<
    Seq<Option<Seq<char>>>,
>;

/// `regex::Regex::new`: compiles an expression. Which texts compile is only
/// named: it depends on the text alone. A compiled expression remembers the
/// text it was given.
#[verifier::external_body]
fn compile(pattern: &str) -> (compiled: Result<regex::Regex, regex::Error>)
    ensures
        compiled is Ok <==> compiles(pattern@),
        compiled matches Ok(regex) ==> pattern_of(regex) == pattern@,
{
    regex::Regex::new(pattern)
}

/// `regex::Regex::find`: the leftmost match, as byte offsets into the text
/// searched. The crate documents that the start is at most the end and that
/// both fall on character boundaries of the text, so that the text can be cut
/// there.
#[verifier::external_body]
pub(crate) fn find_span(regex: &regex::Regex, haystack: &str) -> (span: Option<(usize, usize)>)
    ensures
        match span {
            Some((start, end)) => first_match(pattern_of(*regex), haystack@) == Some(
                (start as int, end as int),
            ),
            None => first_match(pattern_of(*regex), haystack@) is None,
        },
        span matches Some((start, end)) ==> start <= end <= haystack.spec_bytes().len()
            && is_char_boundary(haystack.spec_bytes(), start as int) && is_char_boundary(
            haystack.spec_bytes(),
            end as int,
        ),
{
    match regex.find(haystack) {
        Some(found) => Some((found.start(), found.end())),
        None => None,
    }
}

/// `regex::Regex::captures`: the groups of the leftmost match, each as the
/// text it matched.
#[verifier::external_body]
pub(crate) fn capture_groups(regex: &regex::Regex, haystack: &str) -> (groups: Option<
    Vec<Option<String>>,
>)
    ensures
        groups.deep_view() == first_captures(pattern_of(*regex), haystack@),
{
    match regex.captures(haystack) {
        Some(found) => Some(
            found.iter().map(|group| group.map(|part| part.as_str().to_string())).collect(),
        ),
        None => None,
    }
}

/// The expression that marks the start of the list of names in the page.
pub const NAMES_START: &'static str = "let names\\s*=\\s*\\[";

/// The expression that a file name of an exam or a solution matches: course,
/// term word, year of four digits, kind word, and `exam` or `solution`.
pub const EXAM_NAME: &'static str = "^(\\w+)(Fall|Spring|Winter)(\\d{4})(\\w+)(exam|solution)$";

/// The compiled expressions of the page parser.
pub struct Patterns {
    names_start: regex::Regex,
    exam_name: regex::Regex,
}

impl Patterns {
    #[verifier::type_invariant]
    spec fn compiled_from_own_text(&self) -> bool {
        &&& pattern_of(self.names_start) == NAMES_START@
        &&& pattern_of(self.exam_name) == EXAM_NAME@
    }

    /// Compiles both expressions. `None` if the `regex` crate refuses one of
    /// them.
    pub fn new() -> (patterns: Option<Patterns>)
        ensures
            patterns is Some <==> compiles(NAMES_START@) && compiles(EXAM_NAME@),
    {
        let names_start = match compile(NAMES_START) {
            Ok(regex) => regex,
            Err(_) => return None,
        };
        let exam_name = match compile(EXAM_NAME) {
            Ok(regex) => regex,
            Err(_) => return None,
        };
        Some(Patterns { names_start, exam_name })
    }

    /// Where the list of names starts in a page: the span of the first start
    /// marker.
    pub(crate) fn find_names_start(&self, page: &str) -> (span: Option<(usize, usize)>)
        ensures
            match span {
                Some((start, end)) => first_match(NAMES_START@, page@) == Some(
                    (start as int, end as int),
                ),
                None => first_match(NAMES_START@, page@) is None,
            },
            span matches Some((start, end)) ==> start <= end <= page.spec_bytes().len()
                && is_char_boundary(page.spec_bytes(), end as int),
    {
        proof {
            use_type_invariant(self);
        }
        find_span(&self.names_start, page)
    }

    /// The groups of a file name, if it has the shape of an exam's or a
    /// solution's.
    pub(crate) fn match_exam_name(&self, name: &str) -> (groups: Option<Vec<Option<String>>>)
        ensures
            groups.deep_view() == first_captures(EXAM_NAME@, name@),
    {
        proof {
            use_type_invariant(self);
        }
        capture_groups(&self.exam_name, name)
    }
}

} // verus!
