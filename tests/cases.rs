use sum_mod::decimal::parse_u64;
use sum_mod::run::{case_count, case_line, run, RunError, Transcript};
use sum_mod::solver::{parse_header, solve, solve_case, solve_values, CaseError};
use sum_mod::tokens::{parse_numbers, split_tokens};

fn lines(ls: &[&str]) -> Vec<Vec<u8>> {
    ls.iter().map(|l| l.as_bytes().to_vec()).collect()
}

fn text(t: &Transcript) -> Vec<String> {
    t.output.iter().map(|l| String::from_utf8(l.clone()).unwrap()).collect()
}

#[test]
fn solve_sums_modulo() {
    assert_eq!(solve(&[1, 2, 3], 5), 1);
    assert_eq!(solve(&[3, 4], 7), 0);
    assert_eq!(solve(&[10], 1), 0);
    assert_eq!(solve(&[5, 6, 7], 100), 18);
}

#[test]
fn solve_empty_values_is_zero() {
    assert_eq!(solve(&[], 5), 0);
    assert_eq!(solve(&[], 1), 0);
    assert_eq!(solve_case(b"0 5", b""), Ok(0));
}

#[test]
fn solve_is_exact_past_u64() {
    let expected = ((u64::MAX as u128) * 3 % 1_000_000_007) as u64;
    assert_eq!(solve(&[u64::MAX, u64::MAX, u64::MAX], 1_000_000_007), expected);
    assert_eq!(solve(&[u64::MAX, 1], u64::MAX), 1);
}

#[test]
fn single_case_output() {
    let t = run(&lines(&["1", "3 5", "1 2 3"]));
    assert_eq!(text(&t), vec!["Case #1: 1"]);
    assert_eq!(t.error, None);
}

#[test]
fn two_cases_output() {
    let t = run(&lines(&["2", "2 7", "3 4", "1 1", "10"]));
    assert_eq!(text(&t), vec!["Case #1: 0", "Case #2: 0"]);
    assert_eq!(t.error, None);
}

#[test]
fn cases_are_numbered_from_one() {
    let t = run(&lines(&["3", "1 10", "4", "1 10", "5", "2 10", "6 7"]));
    assert_eq!(text(&t), vec!["Case #1: 4", "Case #2: 5", "Case #3: 3"]);
    let t = run(&lines(&["0"]));
    assert!(t.output.is_empty());
    assert_eq!(t.error, None);
}

#[test]
fn lines_after_the_last_case_are_not_read() {
    let t = run(&lines(&["1", "1 3", "7", "junk", "more junk"]));
    assert_eq!(text(&t), vec!["Case #1: 1"]);
    assert_eq!(t.error, None);
}

#[test]
fn malformed_value_stops_the_run() {
    let t = run(&lines(&["2", "1 7", "3", "2 7", "3 x"]));
    assert_eq!(text(&t), vec!["Case #1: 3"]);
    assert_eq!(t.error, Some(RunError::BadCase { case: 2, error: CaseError::BadValue }));
}

#[test]
fn missing_lines_stop_the_run() {
    let t = run(&lines(&["3", "1 7", "3", "2 7"]));
    assert_eq!(text(&t), vec!["Case #1: 3"]);
    assert_eq!(t.error, Some(RunError::MissingLine { case: 2 }));
    let t = run(&lines(&["2", "1 7", "3"]));
    assert_eq!(text(&t), vec!["Case #1: 3"]);
    assert_eq!(t.error, Some(RunError::MissingLine { case: 2 }));
}

#[test]
fn header_is_read_before_the_values_line() {
    let t = run(&lines(&["1", "1 x"]));
    assert!(t.output.is_empty());
    assert_eq!(t.error, Some(RunError::BadCase { case: 1, error: CaseError::BadModulus }));
}

#[test]
fn bad_or_missing_case_count() {
    let t = run(&[]);
    assert!(t.output.is_empty());
    assert_eq!(t.error, Some(RunError::MissingCaseCount));
    let t = run(&lines(&["two", "1 7", "3"]));
    assert!(t.output.is_empty());
    assert_eq!(t.error, Some(RunError::BadCaseCount));
}

#[test]
fn case_errors() {
    assert_eq!(solve_case(b"", b"1"), Err(CaseError::MissingCount));
    assert_eq!(solve_case(b"a 5", b"1"), Err(CaseError::BadCount));
    assert_eq!(solve_case(b"3", b"1"), Err(CaseError::MissingModulus));
    assert_eq!(solve_case(b"3 -5", b"1"), Err(CaseError::BadModulus));
    assert_eq!(solve_case(b"1 5", b"1 2.5"), Err(CaseError::BadValue));
    assert_eq!(solve_case(b"1 0", b"4"), Err(CaseError::ZeroModulus));
    assert_eq!(solve_case(b"1 0", b"x"), Err(CaseError::BadValue));
}

#[test]
fn header_fields_and_extra_tokens() {
    assert_eq!(parse_header(b"  3\t5  "), Ok((3, 5)));
    assert_eq!(parse_header(b"2 7 junk"), Ok((2, 7)));
    assert_eq!(solve_case(b"2 7 junk", b"3 4"), Ok(0));
    assert_eq!(solve_values(7, b" 3  4 5 "), Ok(5));
}

#[test]
fn numerals() {
    assert_eq!(parse_u64(b"0"), Some(0));
    assert_eq!(parse_u64(b"+7"), Some(7));
    assert_eq!(parse_u64(b"007"), Some(7));
    assert_eq!(parse_u64(b"18446744073709551615"), Some(u64::MAX));
    assert_eq!(parse_u64(b"18446744073709551616"), None);
    assert_eq!(parse_u64(b"99999999999999999999"), None);
    assert_eq!(parse_u64(b""), None);
    assert_eq!(parse_u64(b"+"), None);
    assert_eq!(parse_u64(b"-1"), None);
    assert_eq!(parse_u64(b"12a"), None);
}

#[test]
fn tokens_split_at_whitespace() {
    let ts = split_tokens(b"  a\tbc \r\n d");
    assert_eq!(ts, vec![b"a".to_vec(), b"bc".to_vec(), b"d".to_vec()]);
    assert!(split_tokens(b" \t ").is_empty());
    assert_eq!(parse_numbers(b"1 22 333"), Some(vec![1, 22, 333]));
    assert_eq!(parse_numbers(b""), Some(vec![]));
    assert_eq!(parse_numbers(b"1 x"), None);
}

#[test]
fn count_line_is_a_bare_numeral() {
    assert_eq!(case_count(b"3"), Some(3));
    assert_eq!(case_count(b"3 "), None);
    assert_eq!(case_count(b""), None);
}

#[test]
fn output_line_format() {
    assert_eq!(case_line(1, 1), b"Case #1: 1".to_vec());
    assert_eq!(case_line(12, 0), b"Case #12: 0".to_vec());
    assert_eq!(case_line(305, 18446744073709551615), b"Case #305: 18446744073709551615".to_vec());
}
