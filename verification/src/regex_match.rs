//! Regular-expression criteria, matched by the `regex` crate.
use vstd::prelude::*;

use regex::{Regex, RegexBuilder};

use crate::keywords::occurs_at;
use crate::text::chars_of;

verus! {

#[verifier::external_type_specification]
#[verifier::external_body]
pub struct ExRegex(Regex);

/// Whether `regex::RegexBuilder::build` accepts `pattern` with these flags.
pub uninterp spec fn regex_accepts(
    pattern: Seq<char>,
    case_insensitive: bool,
    multi_line: bool,
    dot_all: bool,
) -> bool;

/// The description (through `Display`) of the `regex::Error` that
/// `regex::RegexBuilder::build` gives for `pattern` with these flags.
pub uninterp spec fn regex_error_text(
    pattern: Seq<char>,
    case_insensitive: bool,
    multi_line: bool,
    dot_all: bool,
) -> Seq<char>;

/// Whether the regular expression that `pattern` compiles to with these flags
/// matches somewhere in `haystack`, as `regex::Regex::is_match` reports it.
pub uninterp spec fn regex_finds(
    pattern: Seq<char>,
    case_insensitive: bool,
    multi_line: bool,
    dot_all: bool,
    haystack: Seq<char>,
) -> bool;

/// `c` is an ASCII letter or digit.
pub open spec fn is_ascii_alphanumeric(c: char) -> bool {
    ('0' <= c && c <= '9') || ('a' <= c && c <= 'z') || ('A' <= c && c <= 'Z')
}

/// `pattern` is a non-empty run of ASCII letters and digits: a regular
/// expression that stands for exactly this text.
pub open spec fn is_plain_literal(pattern: Seq<char>) -> bool {
    pattern.len() > 0 && forall|i: int| 0 <= i < pattern.len() ==> is_ascii_alphanumeric(
        #[trigger] pattern[i],
    )
}

/// `text` occurs somewhere in `line`.
pub open spec fn occurs_in(line: Seq<char>, text: Seq<char>) -> bool {
    exists|p: int| #[trigger] occurs_at(line, text, p)
}

/// Whether `pattern` is a non-empty run of ASCII letters and digits.
pub fn plain_literal(pattern: &[char]) -> (b: bool)
    ensures
        b == is_plain_literal(pattern@),
{
    if pattern.len() == 0 {
        return false;
    }
    let mut i: usize = 0;
    while i < pattern.len()
        invariant
            i <= pattern@.len(),
            forall|j: int| 0 <= j < i ==> is_ascii_alphanumeric(#[trigger] pattern@[j]),
        decreases pattern@.len() - i,
    {
        let c = pattern[i];
        if !(('0' <= c && c <= '9') || ('a' <= c && c <= 'z') || ('A' <= c && c <= 'Z')) {
            assert(!is_ascii_alphanumeric(pattern@[i as int]));
            return false;
        }
        i += 1;
    }
    true
}

/// The options a pattern is compiled with.
#[derive(Clone, Copy, Debug, PartialEq, Eq)]
pub struct RegexFlags {
    /// Letters match regardless of case.
    pub case_insensitive: bool,
    /// `^` and `$` match at line boundaries.
    pub multi_line: bool,
    /// `.` matches line feeds too.
    pub dot_all: bool,
}

/// A compiled regular expression, kept with the pattern text and the flags it
/// was compiled from.
pub struct LinePattern {
    regex: Regex,
    source: String,
    flags: RegexFlags,
}

impl LinePattern {
    /// The pattern text this was compiled from.
    pub closed spec fn source(&self) -> Seq<char> {
        self.source@
    }

    /// The flags this was compiled with.
    pub closed spec fn flags(&self) -> RegexFlags {
        self.flags
    }

    /// Compiles `pattern` with `regex::RegexBuilder` (`case_insensitive`,
    /// `multi_line`, `dot_matches_new_line`, then `build`). The contract claims
    /// that compilation succeeds exactly when `regex_accepts` holds of the
    /// pattern and flags, that the result remembers both, and that on failure
    /// the text is the error's description, named by `regex_error_text`.
    /// It also claims what the regex documentation gives for a pattern made
    /// only of ASCII letters and digits, matched case-sensitively: such a
    /// pattern matches itself literally, and `is_match` searches the whole
    /// haystack, so it matches a line exactly when it occurs in it.
    #[verifier::external_body]
    pub(crate) fn compile(pattern: &str, flags: RegexFlags) -> (r: Result<LinePattern, String>)
        ensures
            r is Ok <==> regex_accepts(
                pattern@,
                flags.case_insensitive,
                flags.multi_line,
                flags.dot_all,
            ),
            r matches Ok(p) ==> p.source() == pattern@ && p.flags() == flags,
            r is Ok && is_plain_literal(pattern@) && !flags.case_insensitive ==> forall|
                line: Seq<char>,
            |
                #[trigger] regex_finds(
                    pattern@,
                    flags.case_insensitive,
                    flags.multi_line,
                    flags.dot_all,
                    line,
                ) == occurs_in(line, pattern@),
            r matches Err(text) ==> text@ == regex_error_text(
                pattern@,
                flags.case_insensitive,
                flags.multi_line,
                flags.dot_all,
            ),
    {
        let built = RegexBuilder::new(pattern).case_insensitive(flags.case_insensitive).multi_line(
            flags.multi_line,
        ).dot_matches_new_line(flags.dot_all).build();
        match built {
            Ok(regex) => Ok(LinePattern { regex, source: pattern.to_string(), flags }),
            Err(e) => Err(e.to_string()),
        }
    }

    /// The pattern text this was compiled from.
    pub fn source_chars(&self) -> (r: Vec<char>)
        ensures
            r@ == self.source(),
    {
        chars_of(self.source.as_str())
    }

    /// The flags this was compiled with.
    pub fn compiled_flags(&self) -> (r: RegexFlags)
        ensures
            r == self.flags(),
    {
        self.flags
    }

    /// Calls `regex::Regex::is_match` on `line`. The contract claims that the
    /// answer is `regex_finds` of the pattern text, the flags and the line.
    #[verifier::external_body]
    pub(crate) fn is_match(&self, line: &str) -> (b: bool)
        ensures
            b == regex_finds(
                self.source(),
                self.flags().case_insensitive,
                self.flags().multi_line,
                self.flags().dot_all,
                line@,
            ),
    {
        self.regex.is_match(line)
    }
}

} // verus!
