use vstd::prelude::*;

verus! {

/// A regular expression in the form in which it is run.
#[verifier::external_type_specification]
#[verifier::external_body]
pub struct ExRegex(regex::Regex);

/// Why a regular expression did not compile.
#[verifier::external_type_specification]
#[verifier::external_body]
pub struct ExRegexError(regex::Error);

/// The byte offsets at which the first match of the regular expression
/// `pattern` in `haystack` starts and ends: what `Regex::find` gives for
/// `Regex::new(pattern)`.
pub uninterp spec fn regex_find(pattern: Seq<char>, haystack: Seq<char>) -> Option<(usize, usize)>;

/// A compiled regular expression, with the text it was compiled from. Only
/// `compile` makes one.
#[derive(Debug)]
pub struct CompiledRegex {
    text: String,
    regex: regex::Regex,
}

impl View for CompiledRegex {
    type V = Seq<char>;

    /// The text that the expression was compiled from.
    closed spec fn view(&self) -> Seq<char> {
        self.text@
    }
}

impl CompiledRegex {
    /// The text that the expression was compiled from.
    pub fn as_str(&self) -> (text: &str)
        ensures
            text@ == self@,
    {
        self.text.as_str()
    }
}

/// `regex::Regex::new`: compiles `pattern` with the default settings. Where it
/// succeeds, the value holds the very text that was compiled. Which patterns
/// compile is left unsaid: beside the syntax, the compiler goes by the memory
/// that the compiled form takes, which is not the same on every machine.
#[verifier::external_body]
pub(crate) fn compile(pattern: &str) -> (outcome: Result<CompiledRegex, regex::Error>)
    ensures
        outcome matches Ok(compiled) ==> compiled@ == pattern@,
{
    match regex::Regex::new(pattern) {
        Ok(regex) => Ok(CompiledRegex { text: pattern.to_owned(), regex }),
        Err(error) => Err(error),
    }
}

/// `regex::Regex::find`: the byte offsets of the first match in `haystack`.
/// Only `compile` makes a `CompiledRegex`, so that it holds the compiled form of
/// its text, and the offsets depend on that text and on `haystack` alone.
#[verifier::external_body]
pub(crate) fn find(compiled: &CompiledRegex, haystack: &str) -> (found: Option<(usize, usize)>)
    ensures
        found == regex_find(compiled@, haystack@),
{
    compiled.regex.find(haystack).map(|m| (m.start(), m.end()))
}

} // verus!
