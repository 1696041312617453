use std::sync::Arc;

use vstd::prelude::*;
use vstd::utf8::encode_utf8;

use crate::compiled::{compile, find, regex_find, CompiledRegex};
use crate::text::share;

verus! {

/// Whether a match at these byte offsets covers the whole of `haystack`.
pub open spec fn is_whole(found: Option<(usize, usize)>, haystack: Seq<char>) -> bool {
    match found {
        Some((start, end)) => start == 0 && end == encode_utf8(haystack).len(),
        None => false,
    }
}

/// Whether the regular expression `pattern` accepts `text`: its first match in
/// `text` covers all of it.
pub open spec fn regex_accepts(pattern: Seq<char>, text: Seq<char>) -> bool {
    is_whole(regex_find(pattern, text), text)
}

/// A regular expression that compiled. Copies share the compiled form.
#[derive(Debug)]
pub struct RegexPattern {
    compiled: Arc<CompiledRegex>,
}

impl View for RegexPattern {
    type V = Seq<char>;

    /// The text that the expression was compiled from.
    closed spec fn view(&self) -> Seq<char> {
        self.compiled@
    }
}

impl RegexPattern {
    /// Compiles `pattern`. `None` where the regex compiler refuses it: for its
    /// syntax, or for the memory that the compiled form would take.
    pub fn new(pattern: &str) -> (compiled: Option<RegexPattern>)
        ensures
            compiled matches Some(p) ==> p@ == pattern@,
    {
        RegexPattern::from_outcome(compile(pattern))
    }

    /// What the regex compiler made of a pattern: the compiled expression, or
    /// `None` where it refused the pattern.
    pub fn from_outcome(outcome: Result<CompiledRegex, regex::Error>) -> (compiled: Option<
        RegexPattern,
    >)
        ensures
            match outcome {
                Ok(c) => compiled matches Some(p) && p@ == c@,
                Err(_) => compiled is None,
            },
    {
        match outcome {
            Ok(c) => Some(RegexPattern { compiled: Arc::new(c) }),
            Err(_) => None,
        }
    }

    /// The text that the expression was compiled from.
    pub fn as_str(&self) -> (pattern: &str)
        ensures
            pattern@ == self@,
    {
        self.compiled.as_str()
    }

    /// Whether the expression matches `text` from its first byte to its last.
    pub fn accepts(&self, text: &str) -> (accepted: bool)
        ensures
            accepted == regex_accepts(self@, text@),
    {
        covers(find(&self.compiled, text), text)
    }
}

impl Clone for RegexPattern {
    fn clone(&self) -> (copy: Self)
        ensures
            copy == *self,
    {
        RegexPattern { compiled: share(&self.compiled) }
    }
}

/// Whether a match at these byte offsets covers the whole of `haystack`.
pub fn covers(found: Option<(usize, usize)>, haystack: &str) -> (whole: bool)
    ensures
        whole == is_whole(found, haystack@),
{
    match found {
        Some((start, end)) => start == 0 && end == haystack.as_bytes().len(),
        None => false,
    }
}

} // verus!
