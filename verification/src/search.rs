//! The `/` search: a compiled regular expression and what it matches.
use vstd::prelude::*;

verus! {

/// regex's compiled expression, carried inside a [`Matcher`].
#[verifier::external_type_specification]
#[verifier::external_body]
pub struct ExRegex(regex::Regex);

/// Whether the expression `pattern` matches somewhere in `text`.
pub uninterp spec fn regex_matches(pattern: Seq<char>, text: Seq<char>) -> bool;

/// Why `pattern` does not compile, or `None` when it does.
pub uninterp spec fn regex_error(pattern: Seq<char>) -> Option<Seq<char>>;

/// regex `Regex::new`: compiles `pattern` (default size limit); the
/// outcome depends on the pattern alone.
#[verifier::external_body]
fn compile_regex(pattern: &str) -> (r: Result<regex::Regex, String>)
    ensures
        match r {
            Ok(_) => regex_error(pattern@) is None,
            Err(e) => regex_error(pattern@) == Some(e@),
        },
{
    regex::Regex::new(pattern).map_err(|e| e.to_string())
}

/// A compiled search expression; its view is the pattern it was compiled
/// from.
pub struct Matcher {
    pattern: String,
    re: regex::Regex,
}

impl View for Matcher {
    type V = Seq<char>;

    closed spec fn view(&self) -> Seq<char> {
        self.pattern@
    }
}

impl Matcher {
    /// Compiles `pattern`.
    pub fn new(pattern: &str) -> (r: Result<Matcher, String>)
        ensures
            match r {
                Ok(m) => m@ == pattern@ && regex_error(pattern@) is None,
                Err(e) => regex_error(pattern@) == Some(e@),
            },
    {
        match compile_regex(pattern) {
            Ok(re) => Ok(Matcher { pattern: crate::text::owned(pattern), re }),
            Err(e) => Err(e),
        }
    }

    /// The pattern this matcher was compiled from.
    pub fn pattern(&self) -> (r: &str)
        ensures
            r@ == self@,
    {
        self.pattern.as_str()
    }

    /// regex `Regex::is_match` on the expression compiled from `self@`.
    #[verifier::external_body]
    pub(crate) fn is_match(&self, text: &str) -> (r: bool)
        ensures
            r == regex_matches(self@, text@),
    {
        self.re.is_match(text)
    }
}

} // verus!
