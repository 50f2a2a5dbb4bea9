//! Regular-expression matching on patch subjects, through the `regex` crate.
//!
//! What the `regex` engine answers for a given pattern and text is named
//! (`regex_compiles`, `regex_is_match`, `regex_capture_group`,
//! `regex_replace_first`); the library's contracts are stated over these names.
use vstd::prelude::*;

verus! {

#[verifier::external_type_specification]
#[verifier::external_body]
pub struct ExRegex(regex::Regex);

/// Whether `regex::Regex::new` accepts `pattern`.
pub uninterp spec fn regex_compiles(pattern: Seq<char>) -> bool;

/// What `Regex::is_match` answers for the regex compiled from `pattern` on `text`.
pub uninterp spec fn regex_is_match(pattern: Seq<char>, text: Seq<char>) -> bool;

/// The text of capture group `group` in the first match of the regex compiled
/// from `pattern` in `text` (`Regex::captures`, then `Captures::get`); `None`
/// when there is no match or the group did not take part in it.
pub uninterp spec fn regex_capture_group(pattern: Seq<char>, text: Seq<char>, group: usize) -> Option<
    Seq<char>,
>;

/// `text` with the first match of the regex compiled from `pattern` replaced by
/// `rep` (`Regex::replace`).
pub uninterp spec fn regex_replace_first(pattern: Seq<char>, text: Seq<char>, rep: Seq<char>) -> Seq<
    char,
>;

/// A compiled regular expression together with the pattern it was compiled from.
pub struct CompiledPattern {
    re: regex::Regex,
    source: String,
}

impl View for CompiledPattern {
    type V = Seq<char>;

    closed spec fn view(&self) -> Seq<char> {
        self.source@
    }
}

/// `regex::Regex::new`: compiles `pattern`; `None` when the crate rejects it.
/// The contract claims only that success is what `regex_compiles` names and that
/// the compiled value remembers its pattern.
#[verifier::external_body]
fn compile(pattern: &str) -> (r: Option<CompiledPattern>)
    ensures
        r.is_some() == regex_compiles(pattern@),
        r matches Some(c) ==> c@ == pattern@,
{
    match regex::Regex::new(pattern) {
        Ok(re) => Some(CompiledPattern { re, source: pattern.to_string() }),
        Err(_) => None,
    }
}

impl CompiledPattern {
    /// `Regex::is_match`: the contract claims the answer is `regex_is_match`
    /// of the pattern and the text.
    #[verifier::external_body]
    fn is_match(&self, text: &str) -> (r: bool)
        ensures
            r == regex_is_match(self@, text@),
    {
        self.re.is_match(text)
    }

    /// `Regex::captures` followed by `Captures::get(group)`: the contract claims
    /// the result is `regex_capture_group` of the pattern, text and group.
    #[verifier::external_body]
    fn capture_group(&self, text: &str, group: usize) -> (r: Option<String>)
        ensures
            r matches Some(s) ==> regex_capture_group(self@, text@, group) == Some(s@),
            r is None ==> regex_capture_group(self@, text@, group) is None,
    {
        match self.re.captures(text) {
            Some(caps) => match caps.get(group) {
                Some(m) => Some(m.as_str().to_string()),
                None => None,
            },
            None => None,
        }
    }

    /// `Regex::replace`: the contract claims the result is
    /// `regex_replace_first` of the pattern, text and replacement.
    #[verifier::external_body]
    fn replace_first(&self, text: &str, rep: &str) -> (r: String)
        ensures
            r@ == regex_replace_first(self@, text@, rep@),
    {
        self.re.replace(text, rep).into_owned()
    }
}

/// Whether `pattern` compiles and matches somewhere in `text`.
pub open spec fn pattern_matches(pattern: Seq<char>, text: Seq<char>) -> bool {
    regex_compiles(pattern) && regex_is_match(pattern, text)
}

/// Capture group `group` of the first match of `pattern` in `text`, if `pattern` compiles.
pub open spec fn pattern_capture(pattern: Seq<char>, text: Seq<char>, group: usize) -> Option<
    Seq<char>,
> {
    if regex_compiles(pattern) {
        regex_capture_group(pattern, text, group)
    } else {
        None
    }
}

/// `text` with the first match of `pattern` replaced by `rep`; `text` itself
/// when `pattern` does not compile.
pub open spec fn pattern_replace(pattern: Seq<char>, text: Seq<char>, rep: Seq<char>) -> Seq<char> {
    if regex_compiles(pattern) {
        regex_replace_first(pattern, text, rep)
    } else {
        text
    }
}

/// Whether `pattern` matches somewhere in `text`.
pub fn is_match(pattern: &str, text: &str) -> (r: bool)
    ensures
        r == pattern_matches(pattern@, text@),
{
    match compile(pattern) {
        Some(re) => re.is_match(text),
        None => false,
    }
}

/// The text of capture group `group` of the first match of `pattern` in `text`.
pub fn capture(pattern: &str, text: &str, group: usize) -> (r: Option<String>)
    ensures
        r matches Some(s) ==> pattern_capture(pattern@, text@, group) == Some(s@),
        r is None ==> pattern_capture(pattern@, text@, group) is None,
{
    match compile(pattern) {
        Some(re) => re.capture_group(text, group),
        None => None,
    }
}

/// `text` with the first match of `pattern` replaced by `rep`.
pub fn replace_first(pattern: &str, text: &str, rep: &str) -> (r: String)
    ensures
        r@ == pattern_replace(pattern@, text@, rep@),
{
    match compile(pattern) {
        Some(re) => re.replace_first(text, rep),
        None => text.to_owned(),
    }
}

} // verus!
