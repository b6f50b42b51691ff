//! Compiled regular expressions (the `regex` crate), known to the library by the
//! pattern text and the case flag they were compiled from.

use vstd::prelude::*;

verus! {

#[verifier::external_type_specification]
#[verifier::external_body]
pub struct ExRegex(regex::Regex);

/// What `RegexBuilder::new(source).case_insensitive(ci).build()` gives: success,
/// or the error's text. A function of the pattern and the flag alone.
pub uninterp spec fn regex_build(source: Seq<char>, ci: bool) -> Result<(), Seq<char>>;

/// Whether the regex compiled from `source` (case-insensitive when `ci`) matches
/// somewhere in `hay` (`Regex::is_match`).
pub uninterp spec fn regex_match(source: Seq<char>, ci: bool, hay: Seq<char>) -> bool;

/// A regex with the pattern and flag it was compiled from. It is only made by
/// `Pattern::compile`, so the compiled regex always belongs to the pattern.
pub struct Pattern {
    re: regex::Regex,
    source: String,
    ci: bool,
}

impl View for Pattern {
    type V = (Seq<char>, bool);

    closed spec fn view(&self) -> (Seq<char>, bool) {
        (self.source@, self.ci)
    }
}

/// `RegexBuilder::new(source).case_insensitive(ci).build()`: claims that the
/// outcome is the builder's verdict on the pattern and flag, and that an error
/// comes with its text.
#[verifier::external_body]
fn build_regex(source: &str, ci: bool) -> (r: Result<regex::Regex, String>)
    ensures
        match r {
            Ok(_) => regex_build(source@, ci) is Ok,
            Err(e) => regex_build(source@, ci) == Err::<(), Seq<char>>(e@),
        },
{
    regex::RegexBuilder::new(source).case_insensitive(ci).build().map_err(|e| e.to_string())
}

/// `Regex::is_match`: claims only that the answer is the regex's verdict on the text.
#[verifier::external_body]
fn regex_is_match(p: &Pattern, hay: &str) -> (r: bool)
    ensures
        r == regex_match(p@.0, p@.1, hay@),
{
    p.re.is_match(hay)
}

impl Pattern {
    /// Compiles `source` (case-insensitive when `ci`).
    pub fn compile(source: &str, ci: bool) -> (r: Result<Pattern, String>)
        ensures
            match r {
                Ok(p) => regex_build(source@, ci) is Ok && p@ == (source@, ci),
                Err(e) => regex_build(source@, ci) == Err::<(), Seq<char>>(e@),
            },
    {
        match build_regex(source, ci) {
            Ok(re) => Ok(Pattern { re, source: String::from_str(source), ci }),
            Err(e) => Err(e),
        }
    }

    /// Whether the pattern matches somewhere in `hay`.
    pub fn is_match(&self, hay: &str) -> (r: bool)
        ensures
            r == regex_match(self@.0, self@.1, hay@),
    {
        regex_is_match(self, hay)
    }
}

} // verus!
