use vstd::prelude::*;

verus! {

#[verifier::external_type_specification]
#[verifier::external_body]
pub struct ExRegex(regex::Regex);

/// Whether the regex crate accepts `pattern`.
pub uninterp spec fn regex_compiles(pattern: Seq<char>) -> bool;

/// The text of the leftmost-first match of `pattern` in `text`, if any, as
/// the regex crate finds it.
pub uninterp spec fn regex_first_match(pattern: Seq<char>, text: Seq<char>) -> Option<Seq<char>>;

/// A compiled regular expression together with the text it was compiled
/// from. Only `compile` builds one, so the two always agree.
pub struct Pattern {
    source: String,
    compiled: regex::Regex,
}

impl Pattern {
    /// The text this pattern was compiled from.
    pub closed spec fn source(&self) -> Seq<char> {
        self.source@
    }

    /// Relies on `regex::Regex::new`, which fails on a pattern it does not
    /// accept and depends on nothing but the pattern.
    #[verifier::external_body]
    pub(crate) fn compile(pattern: &str) -> (r: Option<Pattern>)
        ensures
            r is Some <==> regex_compiles(pattern@),
            r is Some ==> r->Some_0.source() == pattern@,
    {
        regex::Regex::new(pattern).ok().map(|compiled| Pattern { source: pattern.to_string(), compiled })
    }

    /// Relies on `regex::Regex::find`: the leftmost-first match in `text`,
    /// handed back as its text.
    #[verifier::external_body]
    pub(crate) fn find(&self, text: &Vec<char>) -> (r: Option<String>)
        ensures
            match regex_first_match(self.source(), text@) {
                Some(m) => r is Some && r->Some_0@ == m,
                None => r is None,
            },
    {
        let haystack: String = text.iter().collect();
        self.compiled.find(&haystack).map(|m| m.as_str().to_string())
    }
}

} // verus!
