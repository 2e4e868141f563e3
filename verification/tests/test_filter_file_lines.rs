use rust_mcp_filesystem::access::is_path_allowed;
use rust_mcp_filesystem::tools::{FilterError, FilterFileLines, FilterOptions, FilterType};

fn request(
    filter_type: FilterType,
    criteria: &str,
    options: Option<FilterOptions>,
    line_range: Option<&str>,
) -> FilterFileLines {
    FilterFileLines {
        path: "/allowed/test/sample.txt".to_string(),
        filter_type,
        criteria: criteria.to_string(),
        options,
        line_range: line_range.map(|r| r.to_string()),
    }
}

fn run(
    filter_type: FilterType,
    criteria: &str,
    options: Option<FilterOptions>,
    content: &str,
) -> Result<String, FilterError> {
    request(filter_type, criteria, options, None).run_tool(content)
}

#[test]
fn regex_filter_basic_match() {
    let result = run(
        FilterType::Regex,
        "Hello",
        None,
        "Hello World\nFoo Bar\nHello Rust\nBaz Qux",
    );
    assert!(result.is_ok());
    let text = result.unwrap();
    assert!(text.contains("Matches found: 2"));
    assert!(text.contains("1: Hello World"));
    assert!(text.contains("3: Hello Rust"));
}

#[test]
fn regex_filter_case_insensitive() {
    let result = run(
        FilterType::Regex,
        "hello",
        Some(FilterOptions {
            case_insensitive: Some(true),
            ..Default::default()
        }),
        "HELLO World\nhello rust\nHeLLo there",
    );
    assert!(result.is_ok());
    let text = result.unwrap();
    assert!(text.contains("Matches found: 3"));
}

#[test]
fn regex_filter_case_sensitive() {
    let result = run(
        FilterType::Regex,
        "hello",
        Some(FilterOptions {
            case_insensitive: Some(false),
            ..Default::default()
        }),
        "HELLO World\nhello rust\nHeLLo there",
    );
    assert!(result.is_ok());
    let text = result.unwrap();
    assert!(text.contains("Matches found: 1"));
    assert!(text.contains("2: hello rust"));
}

#[test]
fn regex_filter_complex_pattern() {
    let result = run(
        FilterType::Regex,
        r"test\d+",
        None,
        "test123\ntest456\nabc789\ntest_file\ndata999",
    );
    assert!(result.is_ok());
    let text = result.unwrap();
    assert!(text.contains("Matches found: 2"));
    assert!(text.contains("1: test123"));
    assert!(text.contains("2: test456"));
}

#[test]
fn keywords_filter_single_keyword() {
    let result = run(
        FilterType::Keywords,
        "Error",
        None,
        "Error: Something went wrong\nInfo: All good\nError: Failed again",
    );
    assert!(result.is_ok());
    let text = result.unwrap();
    assert!(text.contains("Matches found: 2"));
    assert!(text.contains("Error: Something went wrong"));
    assert!(text.contains("Error: Failed again"));
}

#[test]
fn keywords_filter_multiple_keywords_or_logic() {
    let result = run(
        FilterType::Keywords,
        "Error, Warning",
        Some(FilterOptions {
            match_all: Some(false),
            ..Default::default()
        }),
        "Error occurred\nWarning detected\nInfo message\nDebug statement",
    );
    assert!(result.is_ok());
    let text = result.unwrap();
    assert!(text.contains("Matches found: 2"));
    assert!(text.contains("Error occurred"));
    assert!(text.contains("Warning detected"));
}

#[test]
fn keywords_filter_multiple_keywords_and_logic() {
    let result = run(
        FilterType::Keywords,
        "Error, Warning",
        Some(FilterOptions {
            match_all: Some(true),
            ..Default::default()
        }),
        "Error: Critical failure\nWarning: Minor issue\nError and Warning both present\nJust info",
    );
    assert!(result.is_ok());
    let text = result.unwrap();
    assert!(text.contains("Matches found: 1"));
    assert!(text.contains("Error and Warning both present"));
}

#[test]
fn keywords_filter_whole_words_only() {
    let result = run(
        FilterType::Keywords,
        "test",
        Some(FilterOptions {
            whole_words: Some(true),
            ..Default::default()
        }),
        "test file\ntesting phase\ntest\ncontest results",
    );
    assert!(result.is_ok());
    let text = result.unwrap();
    assert!(text.contains("Matches found: 2"));
    assert!(text.contains("test file"));
    assert!(text.contains("1: test file"));
    assert!(text.contains("3: test"));
    assert!(!text.contains("testing"));
    assert!(!text.contains("contest"));
}

#[test]
fn keywords_filter_case_sensitivity() {
    let result = run(
        FilterType::Keywords,
        "error",
        Some(FilterOptions {
            case_insensitive: Some(false),
            ..Default::default()
        }),
        "ERROR message\nerror lowercase\nError mixed\nno match",
    );
    assert!(result.is_ok());
    let text = result.unwrap();
    assert!(text.contains("Matches found: 1"));
    assert!(text.contains("2: error lowercase"));
}

#[test]
fn lines_filter_single_line() {
    let result = run(
        FilterType::Lines,
        "3",
        None,
        "Line 1\nLine 2\nLine 3\nLine 4\nLine 5",
    );
    assert!(result.is_ok());
    let text = result.unwrap();
    assert!(text.contains("Matches found: 1"));
    assert!(text.contains("3: Line 3"));
}

#[test]
fn lines_filter_range() {
    let result = run(
        FilterType::Lines,
        "2-4",
        None,
        "Line 1\nLine 2\nLine 3\nLine 4\nLine 5",
    );
    assert!(result.is_ok());
    let text = result.unwrap();
    assert!(text.contains("Matches found: 3"));
    assert!(text.contains("2: Line 2"));
    assert!(text.contains("3: Line 3"));
    assert!(text.contains("4: Line 4"));
}

#[test]
fn lines_filter_multiple_ranges_and_singles() {
    let result = run(
        FilterType::Lines,
        "1-3,5,8-9",
        None,
        "Line 1\nLine 2\nLine 3\nLine 4\nLine 5\nLine 6\nLine 7\nLine 8\nLine 9\nLine 10",
    );
    assert!(result.is_ok());
    let text = result.unwrap();
    assert!(text.contains("Matches found: 6"));
    assert!(text.contains("1: Line 1"));
    assert!(text.contains("2: Line 2"));
    assert!(text.contains("3: Line 3"));
    assert!(text.contains("5: Line 5"));
    assert!(text.contains("8: Line 8"));
    assert!(text.contains("9: Line 9"));
}

#[test]
fn lines_filter_out_of_range() {
    let result = run(FilterType::Lines, "5-10", None, "Line 1\nLine 2\nLine 3");
    assert!(result.is_ok());
    let text = result.unwrap();
    assert!(text.contains("Matches found: 0"));
    assert!(text.contains("No matching lines found"));
}

#[test]
fn context_before_and_after() {
    let result = run(
        FilterType::Keywords,
        "Error",
        Some(FilterOptions {
            context_before: Some(1),
            context_after: Some(1),
            ..Default::default()
        }),
        "Line 1\nLine 2\nError here\nLine 4\nLine 5",
    );
    assert!(result.is_ok());
    let text = result.unwrap();
    assert!(text.contains("2: Line 2"));
    assert!(text.contains("3: Error here"));
    assert!(text.contains("4: Line 4"));
}

#[test]
fn context_multiple_lines() {
    let result = run(
        FilterType::Keywords,
        "Error",
        Some(FilterOptions {
            context_before: Some(2),
            context_after: Some(2),
            ..Default::default()
        }),
        "Line 1\nLine 2\nLine 3\nError here\nLine 5\nLine 6\nLine 7",
    );
    assert!(result.is_ok());
    let text = result.unwrap();
    assert!(text.contains("2: Line 2"));
    assert!(text.contains("3: Line 3"));
    assert!(text.contains("4: Error here"));
    assert!(text.contains("5: Line 5"));
    assert!(text.contains("6: Line 6"));
}

#[test]
fn without_line_numbers() {
    let result = run(
        FilterType::Keywords,
        "Hello",
        Some(FilterOptions {
            include_line_numbers: Some(false),
            ..Default::default()
        }),
        "Hello World\nFoo Bar\nHello Rust",
    );
    assert!(result.is_ok());
    let text = result.unwrap();
    assert!(text.contains("Hello World"));
    assert!(text.contains("Hello Rust"));
    assert!(!text.contains("1:"));
    assert!(!text.contains("3:"));
}

#[test]
fn max_results_limit() {
    let result = run(
        FilterType::Keywords,
        "Error",
        Some(FilterOptions {
            max_results: Some(2),
            ..Default::default()
        }),
        "Error 1\nError 2\nError 3\nError 4\nError 5",
    );
    assert!(result.is_ok());
    let text = result.unwrap();
    assert!(text.contains("Matches found: 5"));
    assert!(text.contains("1: Error 1"));
    assert!(text.contains("2: Error 2"));
    assert!(!text.contains("3: Error 3"));
}

#[test]
fn invalid_file_path() {
    let allowed = vec!["/tmp/filter-test/test".to_string()];
    assert!(!is_path_allowed("/nonexistent/file.txt", &allowed));
}

#[test]
fn invalid_regex_pattern() {
    let result = run(FilterType::Regex, "[invalid(regex", None, "Test content");
    assert!(result.is_err());
}

#[test]
fn invalid_line_number_format() {
    let result = run(FilterType::Lines, "abc", None, "Line 1\nLine 2\nLine 3");
    assert!(result.is_err());
}

#[test]
fn path_outside_allowed_directories() {
    let allowed = vec!["/tmp/filter-test/test".to_string()];
    assert!(!is_path_allowed(
        "/tmp/filter-test/unauthorized/file.txt",
        &allowed
    ));
    assert!(is_path_allowed("/tmp/filter-test/test/sample.txt", &allowed));
}

#[test]
fn empty_file() {
    let result = run(FilterType::Keywords, "test", None, "");
    assert!(result.is_ok());
    let text = result.unwrap();
    assert!(text.contains("Matches found: 0"));
}

#[test]
fn no_matches_found() {
    let result = run(
        FilterType::Keywords,
        "nonexistent",
        None,
        "Line 1\nLine 2\nLine 3",
    );
    assert!(result.is_ok());
    let text = result.unwrap();
    assert!(text.contains("Matches found: 0"));
    assert!(text.contains("No matching lines found"));
}

#[test]
fn single_line_file() {
    let result = run(
        FilterType::Keywords,
        "keyword",
        None,
        "Single line with keyword",
    );
    assert!(result.is_ok());
    let text = result.unwrap();
    assert!(text.contains("Matches found: 1"));
    assert!(text.contains("1: Single line with keyword"));
}

#[test]
fn large_file_with_many_matches() {
    let mut lines = Vec::new();
    for i in 1..=1000 {
        if i % 10 == 0 {
            lines.push(format!("Line {} with ERROR", i));
        } else {
            lines.push(format!("Line {}", i));
        }
    }
    let content = lines.join("\n");
    let result = run(FilterType::Keywords, "ERROR", None, &content);
    assert!(result.is_ok());
    let text = result.unwrap();
    assert!(text.contains("Matches found: 100"));
}
