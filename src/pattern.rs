//! Compiled rewrite patterns, matched with the `regex` crate.
use vstd::prelude::*;
use crate::text::strs;

verus! {

#[verifier::external_type_specification]
#[verifier::external_body]
pub struct ExRegex(regex::Regex);

#[verifier::external_type_specification]
#[verifier::external_body]
pub struct ExRegexError(regex::Error);

/// Whether `regex::Regex::new` accepts `pattern`.
pub uninterp spec fn regex_accepts(pattern: Seq<char>) -> bool;

/// The pieces of `text` between successive matches of `pattern`, as
/// `regex::Regex::split` yields them.
pub uninterp spec fn regex_split(pattern: Seq<char>, text: Seq<char>) -> Seq<Seq<char>>;

/// For each successive match of `pattern` in `text`, the text of each capture
/// group (group 0 being the whole match), as `regex::Regex::captures_iter` yields them.
pub uninterp spec fn regex_captures(pattern: Seq<char>, text: Seq<char>) -> Seq<Seq<Option<Seq<char>>>>;

/// The texts of capture groups.
pub open spec fn groups_view(g: Seq<Option<String>>) -> Seq<Option<Seq<char>>> {
    g.map_values(|o: Option<String>|
        match o {
            Some(s) => Some(s@),
            None => None,
        })
}

/// A pattern together with the regular expression compiled from it.
pub struct Pattern {
    source: String,
    regex: regex::Regex,
}

impl View for Pattern {
    type V = Seq<char>;

    /// The source text the pattern was compiled from.
    closed spec fn view(&self) -> Seq<char> {
        self.source@
    }
}

/// Relies on regex::Regex::new: compiles `source`, failing exactly when the
/// crate rejects it.
#[verifier::external_body]
pub(crate) fn compile(source: &str) -> (r: Result<Pattern, regex::Error>)
    ensures
        r is Ok <==> regex_accepts(source@),
        r is Ok ==> r->Ok_0@ == source@,
{
    regex::Regex::new(source).map(|regex| Pattern { source: source.to_owned(), regex })
}

/// Relies on regex::Regex::split: the text between the matches, in order.
#[verifier::external_body]
pub(crate) fn split_text(pattern: &Pattern, text: &str) -> (r: Vec<String>)
    ensures
        strs(r@) == regex_split(pattern@, text@),
{
    pattern.regex.split(text).map(|s| s.to_owned()).collect()
}

/// Relies on regex::Regex::captures_iter and regex::Captures::iter: the
/// capture groups of each match, in order.
#[verifier::external_body]
pub(crate) fn capture_groups(pattern: &Pattern, text: &str) -> (r: Vec<Vec<Option<String>>>)
    ensures
        r@.len() == regex_captures(pattern@, text@).len(),
        forall|i: int| 0 <= i < r@.len() ==> #[trigger] groups_view(r@[i]@) == regex_captures(pattern@, text@)[i],
{
    pattern.regex.captures_iter(text).map(|c| c.iter().map(|m| m.map(|m| m.as_str().to_owned())).collect()).collect()
}

} // verus!
