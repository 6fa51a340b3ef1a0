//! Regular expressions, compiled once and kept beside the text they were
//! compiled from, so that every answer can be stated in terms of that text.
use vstd::prelude::*;
use regex::Regex;

verus! {

#[verifier::external_type_specification]
#[verifier::external_body]
pub struct ExRegex(regex::Regex);

/// What compiling a pattern gives: `None` when it compiles, else the
/// message of the error.
pub uninterp spec fn regex_compile_error(pattern: Seq<char>) -> Option<Seq<char>>;

/// Whether the regular expression `pattern` matches somewhere in `text`.
pub uninterp spec fn regex_matches(pattern: Seq<char>, text: Seq<char>) -> bool;

/// `text` with every match of `pattern` replaced by `replacement`, in which
/// `$n` and `$name` stand for capture groups.
pub uninterp spec fn regex_replaced(pattern: Seq<char>, text: Seq<char>, replacement: Seq<char>) -> Seq<char>;

/// What `Regex::captures` finds in `text`: `None` when nothing matches, else
/// the text of each group of the first match, in order, `None` for a group
/// that took no part in it.
pub uninterp spec fn regex_captures(pattern: Seq<char>, text: Seq<char>) -> Option<Seq<Option<Seq<char>>>>;

/// A compiled regular expression with the pattern it was compiled from.
#[derive(Debug)]
pub struct CompiledPattern {
    source: String,
    re: Regex,
}

impl CompiledPattern {
    /// The pattern the expression was compiled from.
    pub closed spec fn source_view(&self) -> Seq<char> {
        self.source@
    }
}

/// Calls `Regex::new`, and converts its error to the error's message. The
/// contract claims that whether a pattern compiles, and the message when it
/// does not, depend on the pattern alone, and that a compiled expression is
/// kept with its pattern.
#[verifier::external_body]
pub(crate) fn compile_pattern(pattern: &str) -> (r: Result<CompiledPattern, String>)
    ensures
        match regex_compile_error(pattern@) {
            None => r matches Ok(p) && p.source_view() == pattern@,
            Some(m) => r matches Err(e) && e@ == m,
        },
{
    match Regex::new(pattern) {
        Ok(re) => Ok(CompiledPattern { source: pattern.to_string(), re }),
        Err(e) => Err(e.to_string()),
    }
}

/// Calls `Regex::is_match`. The contract claims that the answer depends on
/// the pattern and the text alone.
#[verifier::external_body]
pub(crate) fn pattern_is_match(p: &CompiledPattern, text: &str) -> (r: bool)
    ensures
        r == regex_matches(p.source_view(), text@),
{
    p.re.is_match(text)
}

/// Calls `Regex::replace_all`. The contract claims that the result depends on
/// the pattern, the text and the replacement alone.
#[verifier::external_body]
pub(crate) fn pattern_replace_all(p: &CompiledPattern, text: &str, replacement: &str) -> (r: String)
    ensures
        r@ == regex_replaced(p.source_view(), text@, replacement@),
{
    p.re.replace_all(text, replacement).into_owned()
}

/// Calls `Regex::captures` and takes the text of each group. The contract
/// claims that the groups found depend on the pattern and the text alone.
#[verifier::external_body]
pub(crate) fn pattern_captures(p: &CompiledPattern, text: &str) -> (r: Option<Vec<Option<String>>>)
    ensures
        match regex_captures(p.source_view(), text@) {
            None => r is None,
            Some(groups) => r matches Some(v) && v@.map_values(|g: Option<String>| crate::inventory::host::opt_view(g)) == groups,
        },
{
    p.re.captures(text).map(|c| c.iter().map(|m| m.map(|m| m.as_str().to_string())).collect())
}

} // verus!
