use rust_mcp_filesystem::access::is_path_allowed;
use rust_mcp_filesystem::keywords::{find_keyword, match_keywords, parse_keywords};
use rust_mcp_filesystem::line_numbers::{in_line_spans, parse_line_spec, parse_line_window, LineSpan};
use rust_mcp_filesystem::number::{parse_decimal, render_decimal};
use rust_mcp_filesystem::report::{render_report, Presentation};
use rust_mcp_filesystem::select::{collect_positions, mark_context};
use rust_mcp_filesystem::text::{
    char_is_whitespace, chars_of, lowercase_chars, split_chars, split_lines, string_of, trim_chars,
};
use rust_mcp_filesystem::tools::{FilterError, FilterFileLines, FilterOptions, FilterType};

fn chars(s: &str) -> Vec<char> {
    s.chars().collect()
}

fn text(v: &[char]) -> String {
    v.iter().collect()
}

fn request(
    filter_type: FilterType,
    criteria: &str,
    options: Option<FilterOptions>,
    line_range: Option<&str>,
) -> FilterFileLines {
    FilterFileLines {
        path: "sample.txt".to_string(),
        filter_type,
        criteria: criteria.to_string(),
        options,
        line_range: line_range.map(|r| r.to_string()),
    }
}

#[test]
fn report_text_is_exact() {
    let r = request(FilterType::Keywords, "Hello", None, None)
        .run_tool("Hello World\nFoo Bar\nHello Rust")
        .unwrap();
    assert_eq!(r, "Matches found: 2\n1: Hello World\n3: Hello Rust");
}

#[test]
fn report_without_matches_is_exact() {
    let r = request(FilterType::Keywords, "zzz", None, None)
        .run_tool("a\nb")
        .unwrap();
    assert_eq!(r, "Matches found: 0\nNo matching lines found");
}

#[test]
fn empty_file_report_is_exact() {
    let r = request(FilterType::Regex, ".*", None, None).run_tool("").unwrap();
    assert_eq!(r, "Matches found: 0\nNo matching lines found");
}

#[test]
fn limit_keeps_count_and_shows_first_matches() {
    let opts = FilterOptions {
        max_results: Some(1),
        ..Default::default()
    };
    let r = request(FilterType::Keywords, "x", Some(opts), None)
        .run_tool("x1\ny\nx2\nx3")
        .unwrap();
    assert_eq!(r, "Matches found: 3\n1: x1");
}

#[test]
fn zero_limit_shows_only_the_count() {
    let opts = FilterOptions {
        max_results: Some(0),
        ..Default::default()
    };
    let r = request(FilterType::Keywords, "x", Some(opts), None)
        .run_tool("x1\ny\nx2")
        .unwrap();
    assert_eq!(r, "Matches found: 2");
}

#[test]
fn overlapping_context_windows_are_merged() {
    let opts = FilterOptions {
        context_before: Some(1),
        context_after: Some(1),
        ..Default::default()
    };
    let r = request(FilterType::Keywords, "hit", Some(opts), None)
        .run_tool("a\nhit\nb\nhit\nc\nd\ne")
        .unwrap();
    assert_eq!(r, "Matches found: 2\n1: a\n2: hit\n3: b\n4: hit\n5: c");
}

#[test]
fn context_is_clipped_at_file_edges() {
    let opts = FilterOptions {
        context_before: Some(5),
        context_after: Some(5),
        ..Default::default()
    };
    let r = request(FilterType::Lines, "2", Some(opts), None)
        .run_tool("a\nb\nc")
        .unwrap();
    assert_eq!(r, "Matches found: 1\n1: a\n2: b\n3: c");
}

#[test]
fn line_range_restricts_the_search() {
    let r = request(FilterType::Keywords, "x", None, Some("2-3"))
        .run_tool("x\nx\nx\nx")
        .unwrap();
    assert_eq!(r, "Matches found: 2\n2: x\n3: x");
    let r = request(FilterType::Keywords, "x", None, Some("3:4"))
        .run_tool("x\nx\nx\nx")
        .unwrap();
    assert_eq!(r, "Matches found: 2\n3: x\n4: x");
}

#[test]
fn bad_line_range_is_an_error() {
    let e = request(FilterType::Keywords, "x", None, Some("three"))
        .run_tool("x")
        .unwrap_err();
    assert_eq!(e, FilterError::InvalidLineRange);
    let e = request(FilterType::Keywords, "x", None, Some("5-2"))
        .run_tool("x")
        .unwrap_err();
    assert_eq!(e, FilterError::InvalidLineRange);
}

#[test]
fn empty_keyword_list_is_an_error() {
    let e = request(FilterType::Keywords, " , ,", None, None)
        .run_tool("x")
        .unwrap_err();
    assert_eq!(e, FilterError::NoKeywords);
    assert_eq!(e.message(), "No keywords given");
}

#[test]
fn bad_regex_is_an_error_with_a_message() {
    let e = request(FilterType::Regex, "(", None, None)
        .run_tool("x")
        .unwrap_err();
    match &e {
        FilterError::InvalidRegex(why) => assert!(!why.is_empty()),
        _ => panic!("expected an invalid regex error"),
    }
    assert!(e.message().starts_with("Invalid regex pattern: "));
}

#[test]
fn bad_line_numbers_are_errors() {
    for criteria in ["abc", "0", "4-2", "1,,2", "1-", "-3", ""] {
        let e = request(FilterType::Lines, criteria, None, None)
            .run_tool("a\nb")
            .unwrap_err();
        assert_eq!(e, FilterError::InvalidLineNumbers);
    }
}

#[test]
fn keywords_are_case_insensitive_by_default() {
    let r = request(FilterType::Keywords, "ERROR", None, None)
        .run_tool("an error here\nfine")
        .unwrap();
    assert_eq!(r, "Matches found: 1\n1: an error here");
}

#[test]
fn regex_is_case_sensitive_by_default() {
    let r = request(FilterType::Regex, "ERROR", None, None)
        .run_tool("an error here\nERROR")
        .unwrap();
    assert_eq!(r, "Matches found: 1\n2: ERROR");
}

#[test]
fn regex_dot_all_and_multiline_flags_are_accepted() {
    let opts = FilterOptions {
        multiline: Some(true),
        dot_all: Some(true),
        ..Default::default()
    };
    let r = request(FilterType::Regex, "^b.$", Some(opts), None)
        .run_tool("a\nbc\nbcd")
        .unwrap();
    assert_eq!(r, "Matches found: 1\n2: bc");
}

#[test]
fn whole_words_respect_underscores_and_digits() {
    assert!(find_keyword(&chars("a test."), &chars("test"), true));
    assert!(!find_keyword(&chars("a test_case"), &chars("test"), true));
    assert!(!find_keyword(&chars("test1"), &chars("test"), true));
    assert!(find_keyword(&chars("test1"), &chars("test"), false));
    assert!(!find_keyword(&chars("tes"), &chars("test"), false));
}

#[test]
fn all_keywords_implies_any_on_examples() {
    let kws = parse_keywords(&chars("a, b"));
    for line in ["a b", "a", "b", "c"] {
        let l = chars(line);
        if match_keywords(&l, &kws, false, true) {
            assert!(match_keywords(&l, &kws, false, false));
        }
    }
    assert!(match_keywords(&chars("a b"), &kws, false, true));
    assert!(!match_keywords(&chars("a"), &kws, false, true));
    assert!(match_keywords(&chars("a"), &kws, false, false));
}

#[test]
fn keyword_list_is_trimmed_without_empty_pieces() {
    let kws = parse_keywords(&chars("  Error ,, Warning,"));
    let got: Vec<String> = kws.iter().map(|k| text(k)).collect();
    assert_eq!(got, vec!["Error".to_string(), "Warning".to_string()]);
}

#[test]
fn line_spec_names_the_expected_lines() {
    let spans = parse_line_spec(&chars("1-3, 5 ,8-9")).unwrap();
    assert_eq!(
        spans,
        vec![
            LineSpan { first: 1, last: 3 },
            LineSpan { first: 5, last: 5 },
            LineSpan { first: 8, last: 9 }
        ]
    );
    let selected: Vec<usize> = (1..=10).filter(|n| in_line_spans(&spans, *n)).collect();
    assert_eq!(selected, vec![1, 2, 3, 5, 8, 9]);
}

#[test]
fn line_window_accepts_dash_and_colon() {
    assert_eq!(
        parse_line_window(&chars("2-7")),
        Some(LineSpan { first: 2, last: 7 })
    );
    assert_eq!(
        parse_line_window(&chars(" 2 : 7 ")),
        Some(LineSpan { first: 2, last: 7 })
    );
    assert_eq!(parse_line_window(&chars("7")), None);
}

#[test]
fn decimal_roundtrip_on_examples() {
    for n in [0usize, 7, 10, 99, 100, 12345, usize::MAX] {
        let s = render_decimal(n);
        assert_eq!(text(&s), n.to_string());
        assert_eq!(parse_decimal(&s), Some(n));
    }
    assert_eq!(parse_decimal(&chars("007")), Some(7));
    assert_eq!(parse_decimal(&chars("")), None);
    assert_eq!(parse_decimal(&chars("1a")), None);
    assert_eq!(parse_decimal(&chars("99999999999999999999999")), None);
}

#[test]
fn lines_follow_str_lines() {
    for content in ["", "a", "a\n", "a\n\n", "\n", "a\r\nb\r\n", "a\rb", "x\ny\r"] {
        let got: Vec<String> = split_lines(content).iter().map(|l| text(l)).collect();
        let want: Vec<String> = content.lines().map(|l| l.to_string()).collect();
        assert_eq!(got, want, "content {:?}", content);
    }
}

#[test]
fn lines_rejoin_to_the_content() {
    for content in ["", "a", "a\n", "a\n\nb", "\n\n"] {
        let lines: Vec<String> = split_lines(content).iter().map(|l| text(l)).collect();
        let mut joined = lines.join("\n");
        if content.ends_with('\n') {
            joined.push('\n');
        }
        assert_eq!(joined, content);
    }
}

#[test]
fn split_and_trim_follow_std() {
    let pieces: Vec<String> = split_chars(&chars("a,,b,"), ',').iter().map(|p| text(p)).collect();
    assert_eq!(pieces, vec!["a", "", "b", ""]);
    assert_eq!(text(&trim_chars(&chars(" \t x y \n"))), "x y");
    assert_eq!(text(&trim_chars(&chars("   "))), "");
}

#[test]
fn text_conversions_keep_characters() {
    let s = "héllo wörld ✓";
    assert_eq!(text(&chars_of(s)), s);
    assert_eq!(string_of(&chars(s)), s);
    assert_eq!(text(&lowercase_chars(&chars("ÀB c"))), "àb c");
}

#[test]
fn context_marks_and_positions() {
    let marks = mark_context(10, &[2, 3, 8], 1, 0);
    assert_eq!(
        marks,
        vec![false, true, true, true, false, false, false, true, true, false]
    );
    assert_eq!(collect_positions(&marks), vec![1, 2, 3, 7, 8]);
    let none = mark_context(3, &[], 4, 4);
    assert_eq!(none, vec![false, false, false]);
}

#[test]
fn render_report_uses_the_flags() {
    let lines = vec![chars("one"), chars("two"), chars("three")];
    let pres = Presentation {
        numbered: false,
        before: 0,
        after: 0,
        limit: None,
    };
    assert_eq!(
        render_report(&lines, &vec![true, false, true], pres),
        "Matches found: 2\none\nthree"
    );
    let numbered = Presentation {
        numbered: true,
        ..pres
    };
    assert_eq!(
        render_report(&lines, &vec![false, true, false], numbered),
        "Matches found: 1\n2: two"
    );
}

#[test]
fn crlf_lines_lose_their_carriage_return() {
    let r = request(FilterType::Lines, "1-2", None, None)
        .run_tool("a\r\nb\r\n")
        .unwrap();
    assert_eq!(r, "Matches found: 2\n1: a\n2: b");
}

#[test]
fn allowed_paths() {
    let allowed = vec!["/srv/data".to_string(), "/home/u/".to_string()];
    assert!(is_path_allowed("/srv/data", &allowed));
    assert!(is_path_allowed("/srv/data/x.txt", &allowed));
    assert!(!is_path_allowed("/srv/database/x.txt", &allowed));
    assert!(is_path_allowed("/home/u/notes", &allowed));
    assert!(!is_path_allowed("/home/user", &allowed));
    assert!(!is_path_allowed("/srv/data", &Vec::new()));
}

#[test]
fn options_default_matches_documentation() {
    let d = FilterOptions::default();
    assert_eq!(d.case_insensitive, None);
    assert_eq!(d.include_line_numbers, Some(true));
    assert_eq!(d.context_before, Some(0));
    assert_eq!(d.context_after, Some(0));
    assert_eq!(d.whole_words, Some(false));
    assert_eq!(d.match_all, Some(false));
    assert_eq!(d.max_results, None);
    assert_eq!(d.multiline, None);
    assert_eq!(d.dot_all, None);
}

#[test]
fn single_keyword_all_equals_any() {
    let kws = parse_keywords(&chars("warn"));
    for line in ["a warning", "nothing", "WARN"] {
        let l = chars(line);
        assert_eq!(
            match_keywords(&l, &kws, false, true),
            match_keywords(&l, &kws, false, false)
        );
    }
}

#[test]
fn white_space_agrees_with_std() {
    for code in 0u32..0x110000 {
        if let Some(c) = char::from_u32(code) {
            assert_eq!(char_is_whitespace(c), c.is_whitespace(), "char {:?}", c);
        }
    }
}

#[test]
fn invalid_regex_text_is_the_regex_crate_description() {
    let e = request(FilterType::Regex, "[invalid(regex", None, None)
        .run_tool("x")
        .unwrap_err();
    let expected = regex::Regex::new("[invalid(regex").unwrap_err().to_string();
    assert_eq!(e, FilterError::InvalidRegex(expected.clone()));
    assert_eq!(e.message(), format!("Invalid regex pattern: {}", expected));
}
