//! The `filter_file_lines` tool: filters the lines of a text file by a regular
//! expression, by keywords or by line numbers.
use vstd::prelude::*;

use crate::keywords::{
    bounded_at, find_keyword, keyword_list, keywords_match, match_keywords, occurs_at, parse_keywords,
};
use crate::line_numbers::{
    in_line_spans, in_spans, line_spec, line_window, parse_line_spec, parse_line_window, LineSpan,
};
use crate::regex_match::{
    is_plain_literal, occurs_in, plain_literal, regex_accepts, regex_error_text, regex_finds, LinePattern, RegexFlags,
};
use crate::report::{render_report, report, Presentation};
use crate::text::{
    chars_of, lowercase, lowercase_chars, split_lines, string_of, text_lines, views,
};

verus! {

/// Type of filter to apply when filtering file lines.
#[derive(Clone, Copy, Debug, PartialEq, Eq)]
pub enum FilterType {
    /// Filter using regular expression pattern
    Regex,
    /// Filter by matching keywords (comma-separated)
    Keywords,
    /// Filter by specific line numbers or ranges (e.g., "1-5,10,15-20")
    Lines,
}

/// Options for customizing the filtering behavior.
#[derive(Clone, Copy, Debug, PartialEq, Eq)]
pub struct FilterOptions {
    /// If true, the search is case-insensitive (default: true for keywords, false for regex)
    pub case_insensitive: Option<bool>,
    /// Whether to include line numbers in the output (default: true)
    pub include_line_numbers: Option<bool>,
    /// Number of context lines to show before each match (default: 0)
    pub context_before: Option<u32>,
    /// Number of context lines to show after each match (default: 0)
    pub context_after: Option<u32>,
    /// For keywords: match whole words only (default: false)
    pub whole_words: Option<bool>,
    /// For keywords: require all keywords to match (AND logic) vs any keyword (OR logic) (default: false = OR)
    pub match_all: Option<bool>,
    /// Maximum number of results to return (default: unlimited)
    pub max_results: Option<u32>,
    /// If true, ^ and $ match line boundaries instead of string boundaries (default: false)
    pub multiline: Option<bool>,
    /// If true, the dot (.) matches newlines as well (default: false)
    pub dot_all: Option<bool>,
}

/// The options used when a call gives none.
pub open spec fn default_options() -> FilterOptions {
    FilterOptions {
        case_insensitive: None,
        include_line_numbers: Some(true),
        context_before: Some(0),
        context_after: Some(0),
        whole_words: Some(false),
        match_all: Some(false),
        max_results: None,
        multiline: None,
        dot_all: None,
    }
}

impl Default for FilterOptions {
    fn default() -> (r: Self)
        ensures
            r == default_options(),
    {
        FilterOptions {
            case_insensitive: None,
            include_line_numbers: Some(true),
            context_before: Some(0),
            context_after: Some(0),
            whole_words: Some(false),
            match_all: Some(false),
            max_results: None,
            multiline: None,
            dot_all: None,
        }
    }
}

/// A request of the `filter_file_lines` tool.
pub struct FilterFileLines {
    /// The path of the file to filter.
    pub path: String,
    /// Type of filter to apply: 'regex', 'keywords', or 'lines'.
    pub filter_type: FilterType,
    /// Filter criteria based on the filter type:
    /// - For 'regex': a regular expression pattern
    /// - For 'keywords': comma-separated keywords
    /// - For 'lines': line numbers or ranges (e.g., "1-5,10,15-20")
    pub criteria: String,
    /// Optional filtering options for customization.
    pub options: Option<FilterOptions>,
    /// Optional line range to restrict filtering (format: "start-end" or "start:end")
    pub line_range: Option<String>,
}

/// Why a request cannot be served.
#[derive(Clone, Debug, PartialEq, Eq)]
pub enum FilterError {
    /// The regular expression does not compile; the text says why.
    InvalidRegex(String),
    /// A piece of the line-number criteria is not a line number nor a range.
    InvalidLineNumbers,
    /// The line range is not of the form `start-end` or `start:end`.
    InvalidLineRange,
    /// The keyword criteria name no keyword.
    NoKeywords,
}

/// The kinds of `FilterError`, without the text they carry.
#[derive(Clone, Copy, Debug, PartialEq, Eq)]
pub enum FilterErrorKind {
    InvalidRegex,
    InvalidLineNumbers,
    InvalidLineRange,
    NoKeywords,
}

impl FilterError {
    /// The kind of this error.
    pub open spec fn kind(&self) -> FilterErrorKind {
        match self {
            FilterError::InvalidRegex(_) => FilterErrorKind::InvalidRegex,
            FilterError::InvalidLineNumbers => FilterErrorKind::InvalidLineNumbers,
            FilterError::InvalidLineRange => FilterErrorKind::InvalidLineRange,
            FilterError::NoKeywords => FilterErrorKind::NoKeywords,
        }
    }

    /// A description of this error for people.
    pub open spec fn spec_message(&self) -> Seq<char> {
        match self {
            FilterError::InvalidRegex(why) => "Invalid regex pattern: "@ + why@,
            FilterError::InvalidLineNumbers => "Invalid line numbers: expected numbers or ranges such as 1-5,10,15-20"@,
            FilterError::InvalidLineRange => "Invalid line range: expected start-end or start:end"@,
            FilterError::NoKeywords => "No keywords given"@,
        }
    }

    /// A description of this error for people.
    pub fn message(&self) -> (r: String)
        ensures
            r@ == self.spec_message(),
    {
        match self {
            FilterError::InvalidRegex(why) => {
                let mut text = chars_of("Invalid regex pattern: ");
                let detail = chars_of(why.as_str());
                crate::text::append_chars(&mut text, detail.as_slice());
                string_of(text.as_slice())
            },
            FilterError::InvalidLineNumbers => {
                let text = chars_of("Invalid line numbers: expected numbers or ranges such as 1-5,10,15-20");
                string_of(text.as_slice())
            },
            FilterError::InvalidLineRange => {
                let text = chars_of("Invalid line range: expected start-end or start:end");
                string_of(text.as_slice())
            },
            FilterError::NoKeywords => {
                let text = chars_of("No keywords given");
                string_of(text.as_slice())
            },
        }
    }
}

/// The options in force: those given, or the defaults.
pub open spec fn effective_options(options: Option<FilterOptions>) -> FilterOptions {
    match options {
        Some(o) => o,
        None => default_options(),
    }
}

/// The value of an optional flag, or `default`.
pub open spec fn flag_or(v: Option<bool>, default: bool) -> bool {
    match v {
        Some(b) => b,
        None => default,
    }
}

/// The value of an optional count, or 0.
pub open spec fn count_or_zero(v: Option<u32>) -> u32 {
    match v {
        Some(c) => c,
        None => 0,
    }
}

/// How the report presents the lines, by the options in force.
pub open spec fn presentation(o: FilterOptions) -> Presentation {
    Presentation {
        numbered: flag_or(o.include_line_numbers, true),
        before: count_or_zero(o.context_before),
        after: count_or_zero(o.context_after),
        limit: o.max_results,
    }
}

/// The flags a regular expression is compiled with, by the options in force.
pub open spec fn regex_flags(o: FilterOptions) -> RegexFlags {
    RegexFlags {
        case_insensitive: flag_or(o.case_insensitive, false),
        multi_line: flag_or(o.multiline, false),
        dot_all: flag_or(o.dot_all, false),
    }
}

/// Line number `num` lies in the window, if there is one.
pub open spec fn in_window(window: Option<(nat, nat)>, num: int) -> bool {
    match window {
        Some(w) => w.0 <= num <= w.1,
        None => true,
    }
}

/// `line` holds the keywords `kws`, comparing lowercase forms when
/// `case_insensitive` is set.
pub open spec fn keyword_line_matches(
    line: Seq<char>,
    kws: Seq<Seq<char>>,
    case_insensitive: bool,
    whole_words: bool,
    match_all: bool,
) -> bool {
    if case_insensitive {
        keywords_match(
            lowercase(line),
            kws.map_values(|k: Seq<char>| lowercase(k)),
            whole_words,
            match_all,
        )
    } else {
        keywords_match(line, kws, whole_words, match_all)
    }
}

/// For each of `lines`, whether it lies in the window and meets the criteria;
/// or why the criteria are unusable.
pub open spec fn criterion_flags(
    filter_type: FilterType,
    criteria: Seq<char>,
    o: FilterOptions,
    lines: Seq<Seq<char>>,
    window: Option<(nat, nat)>,
) -> Result<Seq<bool>, FilterErrorKind> {
    match filter_type {
        FilterType::Regex => {
            let f = regex_flags(o);
            if !regex_accepts(criteria, f.case_insensitive, f.multi_line, f.dot_all) {
                Err(FilterErrorKind::InvalidRegex)
            } else {
                Ok(
                    Seq::new(
                        lines.len(),
                        |i: int|
                            in_window(window, i + 1) && regex_finds(
                                criteria,
                                f.case_insensitive,
                                f.multi_line,
                                f.dot_all,
                                lines[i],
                            ),
                    ),
                )
            }
        },
        FilterType::Keywords => {
            let kws = keyword_list(criteria);
            if kws.len() == 0 {
                Err(FilterErrorKind::NoKeywords)
            } else {
                Ok(
                    Seq::new(
                        lines.len(),
                        |i: int|
                            in_window(window, i + 1) && keyword_line_matches(
                                lines[i],
                                kws,
                                flag_or(o.case_insensitive, true),
                                flag_or(o.whole_words, false),
                                flag_or(o.match_all, false),
                            ),
                    ),
                )
            }
        },
        FilterType::Lines => match line_spec(criteria) {
            Some(spans) => Ok(
                Seq::new(lines.len(), |i: int| in_window(window, i + 1) && in_spans(spans, i + 1)),
            ),
            None => Err(FilterErrorKind::InvalidLineNumbers),
        },
    }
}

/// What the tool answers for `request` on a file whose text is `content`: the
/// report, or the kind of error.
pub open spec fn filter_result(request: FilterFileLines, content: Seq<char>) -> Result<
    Seq<char>,
    FilterErrorKind,
> {
    let o = effective_options(request.options);
    let lines = text_lines(content);
    let window: Option<Option<(nat, nat)>> = match request.line_range {
        None => Some(None),
        Some(r) => match line_window(r@) {
            Some(w) => Some(Some(w)),
            None => None,
        },
    };
    match window {
        None => Err(FilterErrorKind::InvalidLineRange),
        Some(w) => match criterion_flags(request.filter_type, request.criteria@, o, lines, w) {
            Ok(flags) => Ok(report(lines, flags, presentation(o))),
            Err(k) => Err(k),
        },
    }
}

/// The window as a pair of line numbers.
pub open spec fn window_pair(w: Option<LineSpan>) -> Option<(nat, nat)> {
    match w {
        Some(s) => Some((s.first as nat, s.last as nat)),
        None => None,
    }
}

/// Whether line number `num` lies in the window, if there is one.
fn within(window: Option<LineSpan>, num: usize) -> (b: bool)
    ensures
        b == in_window(window_pair(window), num as int),
{
    match window {
        Some(s) => s.first <= num && num <= s.last,
        None => true,
    }
}

/// For each line, whether it lies in the window and the compiled pattern
/// matches it. A pattern made only of ASCII letters and digits, matched
/// case-sensitively, is searched for as plain text anywhere in the line.
pub(crate) fn regex_line_flags(pattern: &LinePattern, lines: &Vec<Vec<char>>, window: Option<LineSpan>) -> (r:
    Vec<bool>)
    requires
        is_plain_literal(pattern.source()) && !pattern.flags().case_insensitive ==> forall|
            line: Seq<char>,
        |
            #[trigger] regex_finds(
                pattern.source(),
                pattern.flags().case_insensitive,
                pattern.flags().multi_line,
                pattern.flags().dot_all,
                line,
            ) == occurs_in(line, pattern.source()),
    ensures
        r@ == Seq::new(
            lines@.len(),
            |i: int|
                in_window(window_pair(window), i + 1) && regex_finds(
                    pattern.source(),
                    pattern.flags().case_insensitive,
                    pattern.flags().multi_line,
                    pattern.flags().dot_all,
                    lines@[i]@,
                ),
        ),
        is_plain_literal(pattern.source()) && !pattern.flags().case_insensitive ==> r@ == Seq::new(
            lines@.len(),
            |i: int| in_window(window_pair(window), i + 1) && occurs_in(lines@[i]@, pattern.source()),
        ),
{
    let source = pattern.source_chars();
    let flags = pattern.compiled_flags();
    let literal = !flags.case_insensitive && plain_literal(source.as_slice());
    let mut r: Vec<bool> = Vec::new();
    let mut i: usize = 0;
    while i < lines.len()
        invariant
            i <= lines@.len(),
            r@.len() == i,
            source@ == pattern.source(),
            flags == pattern.flags(),
            literal == (is_plain_literal(pattern.source()) && !pattern.flags().case_insensitive),
            literal ==> forall|line: Seq<char>|
                #[trigger] regex_finds(
                    pattern.source(),
                    pattern.flags().case_insensitive,
                    pattern.flags().multi_line,
                    pattern.flags().dot_all,
                    line,
                ) == occurs_in(line, pattern.source()),
            forall|j: int|
                0 <= j < i ==> r@[j] == (in_window(window_pair(window), j + 1) && regex_finds(
                    pattern.source(),
                    pattern.flags().case_insensitive,
                    pattern.flags().multi_line,
                    pattern.flags().dot_all,
                    lines@[j]@,
                )),
        decreases lines@.len() - i,
    {
        let inside = within(window, i + 1);
        let hit = if !inside {
            false
        } else if literal {
            let found = find_keyword(lines[i].as_slice(), source.as_slice(), false);
            proof {
                let line = lines@[i as int]@;
                if found {
                    let p = choose|p: int| #[trigger] occurs_at(line, source@, p) && (!false
                        || bounded_at(line, source@, p));
                    assert(occurs_at(line, source@, p));
                }
                if occurs_in(line, source@) {
                    let p = choose|p: int| #[trigger] occurs_at(line, source@, p);
                    assert(occurs_at(line, source@, p) && (!false || bounded_at(line, source@, p)));
                }
                assert(found == regex_finds(
                    pattern.source(),
                    pattern.flags().case_insensitive,
                    pattern.flags().multi_line,
                    pattern.flags().dot_all,
                    line,
                ));
            }
            found
        } else {
            let text = string_of(lines[i].as_slice());
            pattern.is_match(text.as_str())
        };
        r.push(inside && hit);
        i += 1;
    }
    assert(r@ =~= Seq::new(
        lines@.len(),
        |i: int|
            in_window(window_pair(window), i + 1) && regex_finds(
                pattern.source(),
                pattern.flags().case_insensitive,
                pattern.flags().multi_line,
                pattern.flags().dot_all,
                lines@[i]@,
            ),
    ));
    r
}

/// For each line, whether it lies in the window and holds the keywords.
pub fn keyword_line_flags(
    lines: &Vec<Vec<char>>,
    kws: &Vec<Vec<char>>,
    case_insensitive: bool,
    whole_words: bool,
    match_all: bool,
    window: Option<LineSpan>,
) -> (r: Vec<bool>)
    ensures
        r@ == Seq::new(
            lines@.len(),
            |i: int|
                in_window(window_pair(window), i + 1) && keyword_line_matches(
                    lines@[i]@,
                    views(kws@),
                    case_insensitive,
                    whole_words,
                    match_all,
                ),
        ),
{
    let ghost kv = views(kws@);
    let mut folded: Vec<Vec<char>> = Vec::new();
    if case_insensitive {
        let mut k: usize = 0;
        while k < kws.len()
            invariant
                k <= kws@.len(),
                kv == views(kws@),
                views(folded@) == kv.take(k as int).map_values(|x: Seq<char>| lowercase(x)),
            decreases kws@.len() - k,
        {
            let f = lowercase_chars(kws[k].as_slice());
            let ghost before = views(folded@);
            folded.push(f);
            assert(views(folded@) =~= before.push(f@));
            assert(kv.take(k + 1).map_values(|x: Seq<char>| lowercase(x)) =~= kv.take(
                k as int,
            ).map_values(|x: Seq<char>| lowercase(x)).push(lowercase(kv[k as int])));
            k += 1;
        }
        assert(kv.take(kws@.len() as int) =~= kv);
    }
    let mut r: Vec<bool> = Vec::new();
    let mut i: usize = 0;
    while i < lines.len()
        invariant
            i <= lines@.len(),
            kv == views(kws@),
            case_insensitive ==> views(folded@) == kv.map_values(|x: Seq<char>| lowercase(x)),
            r@.len() == i,
            forall|j: int|
                0 <= j < i ==> r@[j] == (in_window(window_pair(window), j + 1)
                    && keyword_line_matches(lines@[j]@, kv, case_insensitive, whole_words, match_all)),
        decreases lines@.len() - i,
    {
        let inside = within(window, i + 1);
        let hit = if !inside {
            false
        } else if case_insensitive {
            let line = lowercase_chars(lines[i].as_slice());
            match_keywords(line.as_slice(), &folded, whole_words, match_all)
        } else {
            match_keywords(lines[i].as_slice(), kws, whole_words, match_all)
        };
        r.push(inside && hit);
        i += 1;
    }
    assert(r@ =~= Seq::new(
        lines@.len(),
        |i: int|
            in_window(window_pair(window), i + 1) && keyword_line_matches(
                lines@[i]@,
                kv,
                case_insensitive,
                whole_words,
                match_all,
            ),
    ));
    r
}

/// For each line, whether it lies in the window and its number in one of the
/// spans.
pub fn number_line_flags(line_count: usize, spans: &Vec<LineSpan>, window: Option<LineSpan>) -> (r:
    Vec<bool>)
    ensures
        r@ == Seq::new(
            line_count as nat,
            |i: int|
                in_window(window_pair(window), i + 1) && in_spans(
                    crate::line_numbers::span_pairs(spans@),
                    i + 1,
                ),
        ),
{
    let mut r: Vec<bool> = Vec::new();
    let mut i: usize = 0;
    while i < line_count
        invariant
            i <= line_count,
            r@.len() == i,
            forall|j: int|
                0 <= j < i ==> r@[j] == (in_window(window_pair(window), j + 1) && in_spans(
                    crate::line_numbers::span_pairs(spans@),
                    j + 1,
                )),
        decreases line_count - i,
    {
        let inside = within(window, i + 1);
        let hit = in_line_spans(spans, i + 1);
        r.push(inside && hit);
        i += 1;
    }
    assert(r@ =~= Seq::new(
        line_count as nat,
        |i: int|
            in_window(window_pair(window), i + 1) && in_spans(
                crate::line_numbers::span_pairs(spans@),
                i + 1,
            ),
    ));
    r
}

impl FilterFileLines {
    /// Filters the lines of `content`, the text of the file at `self.path`,
    /// by the request's criteria, and reports the result: a header
    /// `"Matches found: N"` counting every matching line, then either
    /// `"No matching lines found"` or the shown lines (the first matches up to
    /// `max_results`, with their context lines), numbered unless
    /// `include_line_numbers` is false.
    pub fn run_tool(&self, content: &str) -> (r: Result<String, FilterError>)
        ensures
            r is Ok <==> filter_result(*self, content@) is Ok,
            r matches Ok(text) ==> filter_result(*self, content@) == Ok::<Seq<char>, FilterErrorKind>(text@),
            r matches Err(e) ==> filter_result(*self, content@) == Err::<Seq<char>, FilterErrorKind>(e.kind()),
            r matches Err(FilterError::InvalidRegex(why)) ==> why@ == regex_error_text(
                self.criteria@,
                regex_flags(effective_options(self.options)).case_insensitive,
                regex_flags(effective_options(self.options)).multi_line,
                regex_flags(effective_options(self.options)).dot_all,
            ),
            self.filter_type is Regex && self.line_range is None && is_plain_literal(self.criteria@)
                && !flag_or(effective_options(self.options).case_insensitive, false) ==> (r matches Ok(
                text,
            ) ==> text@ == report(
                text_lines(content@),
                Seq::new(
                    text_lines(content@).len(),
                    |i: int| occurs_in(text_lines(content@)[i], self.criteria@),
                ),
                presentation(effective_options(self.options)),
            )),
    {
        let o: FilterOptions = match self.options {
            Some(o) => o,
            None => FilterOptions::default(),
        };
        let window: Option<LineSpan> = match &self.line_range {
            None => None,
            Some(range) => {
                let chars = chars_of(range.as_str());
                match parse_line_window(chars.as_slice()) {
                    Some(w) => Some(w),
                    None => {
                        return Err(FilterError::InvalidLineRange);
                    },
                }
            },
        };
        let lines = split_lines(content);
        let ghost lv = views(lines@);
        let flags: Vec<bool> = match self.filter_type {
            FilterType::Regex => {
                let f = RegexFlags {
                    case_insensitive: match o.case_insensitive {
                        Some(b) => b,
                        None => false,
                    },
                    multi_line: match o.multiline {
                        Some(b) => b,
                        None => false,
                    },
                    dot_all: match o.dot_all {
                        Some(b) => b,
                        None => false,
                    },
                };
                assert(f == regex_flags(o));
                match LinePattern::compile(self.criteria.as_str(), f) {
                    Ok(pattern) => {
                        let flags = regex_line_flags(&pattern, &lines, window);
                        assert(self.line_range is None && is_plain_literal(self.criteria@)
                            && !f.case_insensitive ==> flags@ =~= Seq::new(
                            lv.len(),
                            |i: int| occurs_in(lv[i], self.criteria@),
                        ));
                        assert(flags@ =~= criterion_flags(
                            self.filter_type,
                            self.criteria@,
                            o,
                            lv,
                            window_pair(window),
                        )->Ok_0);
                        flags
                    },
                    Err(why) => {
                        return Err(FilterError::InvalidRegex(why));
                    },
                }
            },
            FilterType::Keywords => {
                let criteria = chars_of(self.criteria.as_str());
                let kws = parse_keywords(criteria.as_slice());
                if kws.len() == 0 {
                    return Err(FilterError::NoKeywords);
                }
                let ci = match o.case_insensitive {
                    Some(b) => b,
                    None => true,
                };
                let whole = match o.whole_words {
                    Some(b) => b,
                    None => false,
                };
                let all = match o.match_all {
                    Some(b) => b,
                    None => false,
                };
                let flags = keyword_line_flags(&lines, &kws, ci, whole, all, window);
                assert(flags@ =~= criterion_flags(
                    self.filter_type,
                    self.criteria@,
                    o,
                    lv,
                    window_pair(window),
                )->Ok_0);
                flags
            },
            FilterType::Lines => {
                let criteria = chars_of(self.criteria.as_str());
                match parse_line_spec(criteria.as_slice()) {
                    Some(spans) => {
                        let flags = number_line_flags(lines.len(), &spans, window);
                        assert(flags@ =~= criterion_flags(
                            self.filter_type,
                            self.criteria@,
                            o,
                            lv,
                            window_pair(window),
                        )->Ok_0);
                        flags
                    },
                    None => {
                        return Err(FilterError::InvalidLineNumbers);
                    },
                }
            },
        };
        let pres = Presentation {
            numbered: match o.include_line_numbers {
                Some(b) => b,
                None => true,
            },
            before: match o.context_before {
                Some(c) => c,
                None => 0,
            },
            after: match o.context_after {
                Some(c) => c,
                None => 0,
            },
            limit: o.max_results,
        };
        assert(pres == presentation(o));
        Ok(render_report(&lines, &flags, pres))
    }
}

/// A line range restricts the search: whatever the filter type, every line
/// that the criteria select lies within the window.
pub proof fn law_selection_stays_in_window(
    filter_type: FilterType,
    criteria: Seq<char>,
    o: FilterOptions,
    lines: Seq<Seq<char>>,
    window: Option<(nat, nat)>,
)
    ensures
        criterion_flags(filter_type, criteria, o, lines, window) matches Ok(flags) ==> flags.len()
            == lines.len() && forall|i: int|
            0 <= i < flags.len() && #[trigger] flags[i] ==> in_window(window, i + 1),
{
}

/// Line-number criteria select exactly the lines whose number they name
/// (within the window).
pub proof fn law_line_numbers_select_named_lines(
    criteria: Seq<char>,
    o: FilterOptions,
    lines: Seq<Seq<char>>,
    window: Option<(nat, nat)>,
)
    requires
        line_spec(criteria) is Some,
    ensures
        criterion_flags(FilterType::Lines, criteria, o, lines, window) matches Ok(flags) && forall|
            i: int,
        |
            0 <= i < lines.len() ==> #[trigger] flags[i] == (in_window(window, i + 1) && in_spans(
                line_spec(criteria)->0,
                i + 1,
            )),
{
}

/// Context lines are counted by the options: a report shows line `j` exactly
/// when it lies in the file and at most `context_before` lines before or at
/// most `context_after` lines after one of the shown matches (the first
/// matches, up to `max_results`).
pub proof fn law_context_lines_follow_the_options(flags: Seq<bool>, o: FilterOptions, j: int)
    ensures
        crate::report::displayed_lines(flags, presentation(o)).contains(j) <==> (0 <= j
            < flags.len() && exists|k: int|
            0 <= k < crate::report::limited(crate::report::matching_lines(flags), o.max_results).len()
                && #[trigger] crate::report::limited(
                crate::report::matching_lines(flags),
                o.max_results,
            )[k] - count_or_zero(o.context_before) <= j <= crate::report::limited(
                crate::report::matching_lines(flags),
                o.max_results,
            )[k] + count_or_zero(o.context_after)),
{
    let pres = presentation(o);
    crate::report::law_displayed_lines(flags, pres);
    let shown = crate::report::shown_matches(flags, pres);
    assert(shown == crate::report::limited(crate::report::matching_lines(flags), o.max_results));
    assert(pres.before == count_or_zero(o.context_before));
    assert(pres.after == count_or_zero(o.context_after));
    let d = crate::report::displayed_lines(flags, pres);
    if d.contains(j) {
        let a = choose|a: int| 0 <= a < d.len() && d[a] == j;
        assert(crate::select::covered(shown, pres.before as int, pres.after as int, d[a]));
    }
}

} // verus!
