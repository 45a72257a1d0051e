//! Pattern selection over fragment identifiers. The pattern language itself
//! is supplied by the regex crate; this module wraps compilation and
//! matching behind named results and extracts the pattern text of a pattern
//! line.

use vstd::prelude::*;

use crate::errors::PatternExtractError;
use crate::text::{str_trim, trim_seq};

verus! {

#[verifier::external_type_specification]
#[verifier::external_body]
pub struct ExRegex(regex::Regex);

#[verifier::external_type_specification]
#[verifier::external_body]
pub struct ExRegexError(regex::Error);

/// Whether `regex::Regex::new` accepts `pat`: valid pattern syntax within
/// the default size limit, a function of the pattern text alone.
pub uninterp spec fn regex_compiles(pat: Seq<char>) -> bool;

/// Whether the regex compiled from `pat` matches anywhere in `text`, a
/// function of the two texts alone.
pub uninterp spec fn regex_matches(pat: Seq<char>, text: Seq<char>) -> bool;

/// A compiled pattern, remembering the text it was compiled from.
#[derive(Debug)]
pub struct CompiledPattern {
    re: regex::Regex,
    pat: String,
}

impl CompiledPattern {
    /// The pattern text this value was compiled from.
    pub closed spec fn pattern(self) -> Seq<char> {
        self.pat@
    }

    /// Relies on regex::Regex::new: compilation is deterministic in the
    /// pattern text, returning a regex exactly when the pattern is valid
    /// (and within the default size limit).
    #[verifier::external_body]
    pub(crate) fn compile(pat: &str) -> (r: Result<CompiledPattern, regex::Error>)
        ensures
            r is Ok <==> regex_compiles(pat@),
            r is Ok ==> r->Ok_0.pattern() == pat@,
    {
        match regex::Regex::new(pat) {
            Ok(re) => Ok(CompiledPattern { re, pat: pat.to_owned() }),
            Err(e) => Err(e),
        }
    }

    /// Relies on regex::Regex::is_match: true if and only if the compiled
    /// pattern matches somewhere in `text`, a pure function of the pattern
    /// and the haystack.
    #[verifier::external_body]
    pub fn is_match(&self, text: &str) -> (r: bool)
        ensures
            r == regex_matches(self.pattern(), text@),
    {
        self.re.is_match(text)
    }
}

/// The pattern text of a pattern line: what stands after `col`, with
/// surrounding whitespace removed.
pub open spec fn pattern_span(s: Seq<char>, col: int) -> Seq<char> {
    if 0 <= col <= s.len() {
        trim_seq(s.skip(col))
    } else {
        Seq::empty()
    }
}

/// Reads and compiles the pattern that stands after character offset `col`.
pub fn extract_pattern(content: &str, col: usize) -> (r: Result<
    CompiledPattern,
    PatternExtractError,
>)
    requires
        col <= content@.len(),
    ensures
        ({
            let pat = pattern_span(content@, col as int);
            if pat.len() == 0 {
                r matches Err(PatternExtractError::NoPatternFound)
            } else if regex_compiles(pat) {
                r is Ok && r->Ok_0.pattern() == pat
            } else {
                r matches Err(PatternExtractError::RegexConstruction(_))
            }
        }),
{
    let n = content.unicode_len();
    let tail = content.substring_char(col, n);
    let pat = str_trim(tail);
    if pat.unicode_len() == 0 {
        Err(PatternExtractError::NoPatternFound)
    } else {
        match CompiledPattern::compile(pat) {
            Ok(c) => Ok(c),
            Err(e) => Err(PatternExtractError::RegexConstruction(e)),
        }
    }
}

} // verus!
