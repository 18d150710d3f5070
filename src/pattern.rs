use vstd::prelude::*;

verus! {

#[verifier::external_type_specification]
#[verifier::external_body]
pub struct ExRegex(regex::Regex);

#[verifier::external_type_specification]
#[verifier::external_body]
pub struct ExRegexError(regex::Error);

/// Whether the regex crate accepts `pattern` (its syntax, and its size limits).
pub uninterp spec fn regex_compiles(pattern: Seq<char>) -> bool;

/// The text of capture group `group` in the first match of `pattern` in
/// `hay`; `None` when there is no match, or the group took no part in it.
pub uninterp spec fn regex_group(pattern: Seq<char>, hay: Seq<char>, group: nat) -> Option<
    Seq<char>,
>;

/// A regular expression, kept with the text it was compiled from.
pub struct Pattern {
    source: String,
    compiled: regex::Regex,
}

impl View for Pattern {
    type V = Seq<char>;

    /// The text the pattern was compiled from.
    closed spec fn view(&self) -> Seq<char> {
        self.source@
    }
}

/// Relies on `regex::Regex::new`: it compiles `source`, or fails; whether it
/// fails depends on `source` alone.
#[verifier::external_body]
pub(crate) fn compile(source: &str) -> (r: Result<Pattern, regex::Error>)
    ensures
        match r {
            Ok(p) => p@ == source@ && regex_compiles(source@),
            Err(_) => !regex_compiles(source@),
        },
{
    match regex::Regex::new(source) {
        Ok(re) => Ok(Pattern { source: source.to_string(), compiled: re }),
        Err(e) => Err(e),
    }
}

/// Relies on `regex::Regex::captures`, then `regex::Captures::get` and
/// `regex::Match::as_str` on its result: the text of group `group` in the
/// first match of the pattern in `hay`.
#[verifier::external_body]
pub(crate) fn capture<'h>(p: &Pattern, hay: &'h str, group: usize) -> (r: Option<&'h str>)
    ensures
        match r {
            Some(t) => regex_group(p@, hay@, group as nat) == Some(t@),
            None => regex_group(p@, hay@, group as nat) is None,
        },
{
    match p.compiled.captures(hay) {
        Some(c) => match c.get(group) {
            Some(m) => Some(m.as_str()),
            None => None,
        },
        None => None,
    }
}

} // verus!
