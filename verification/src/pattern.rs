use vstd::prelude::*;

verus! {

#[verifier::external_type_specification]
#[verifier::external_body]
pub struct ExRegex(regex::Regex);

/// Whether the regular expression written as `pattern` matches somewhere in
/// `text`. Matching is a function of the two strings alone; what it holds is
/// defined by the regex crate, so nothing more is stated of it here.
pub uninterp spec fn regex_match(pattern: Seq<char>, text: Seq<char>) -> bool;

/// Whether the regex crate accepts `pattern` as a well-formed expression.
/// Acceptance is decided by the pattern text alone; which texts those are is
/// defined by the crate's syntax, so nothing more is stated of it here.
pub uninterp spec fn regex_accepts(pattern: Seq<char>) -> bool;

/// Relies on regex::Regex::new: it compiles every pattern the crate's syntax
/// accepts and reports an error on every other — never a panic — so a
/// matcher comes back exactly when the pattern is well-formed.
#[verifier::external_body]
fn new_regex(pattern: &str) -> (r: Option<regex::Regex>)
    ensures
        r is Some <==> regex_accepts(pattern@),
{
    regex::Regex::new(pattern).ok()
}

/// A compiled matcher together with the pattern text it was compiled from.
pub struct Pattern {
    re: regex::Regex,
    src: Ghost<Seq<char>>,
}

impl Pattern {
    /// The pattern text this matcher was compiled from.
    pub closed spec fn src(&self) -> Seq<char> {
        self.src@
    }

    /// Compiles a pattern, recording the text it came from. A matcher comes
    /// back exactly when the regex crate accepts the pattern; an ill-formed
    /// one yields nothing.
    pub fn compile(pattern: &str) -> (r: Option<Pattern>)
        ensures
            r is Some <==> regex_accepts(pattern@),
            r matches Some(p) ==> p.src() == pattern@,
    {
        match new_regex(pattern) {
            Some(re) => Some(Pattern { re, src: Ghost(pattern@) }),
            None => None,
        }
    }

    /// Relies on regex::Regex::is_match: whether the compiled pattern matches
    /// somewhere in `text`, decided by pattern and text alone.
    #[verifier::external_body]
    pub fn is_match(&self, text: &str) -> (r: bool)
        ensures
            r == regex_match(self.src(), text@),
    {
        self.re.is_match(text)
    }
}

} // verus!
