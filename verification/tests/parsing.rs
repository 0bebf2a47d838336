use os_sim::command_line::{parse_args, parse_count, ArgError};
use os_sim::text::{parse_usize, split_lines, starts_with, strip_prefix, trim_str};

fn args(v: &[&str]) -> Vec<String> {
    v.iter().map(|s| s.to_string()).collect()
}

#[test]
fn counts_are_parsed_after_trimming() {
    assert_eq!(parse_count("3"), Some(3));
    assert_eq!(parse_count("  42\n"), Some(42));
    assert_eq!(parse_count("+7"), Some(7));
    assert_eq!(parse_count(""), None);
    assert_eq!(parse_count("+"), None);
    assert_eq!(parse_count("-1"), None);
    assert_eq!(parse_count("1 2"), None);
    assert_eq!(parse_count("x"), None);
    assert_eq!(parse_count("18446744073709551616"), None);
    assert_eq!(parse_count("18446744073709551615"), Some(18446744073709551615));
}

#[test]
fn parse_usize_matches_std() {
    for s in ["0", "007", "+0", "99999999999999999999", "12a", " 1", "", "+", "++1"] {
        assert_eq!(parse_usize(s), s.parse::<usize>().ok(), "{s}");
    }
}

#[test]
fn trim_matches_std() {
    for s in ["", "  ", " a ", "\t\nab c\r\n", "\u{3000}x\u{2009}", "x"] {
        assert_eq!(trim_str(s), s.trim(), "{s:?}");
    }
}

#[test]
fn prefixes() {
    assert!(starts_with(".save a", ".save "));
    assert!(!starts_with(".sav", ".save "));
    assert_eq!(strip_prefix(".print x y", ".print "), Some("x y".to_string()));
    assert_eq!(strip_prefix("print x", ".print "), None);
    assert_eq!(strip_prefix("é.", "é"), Some(".".to_string()));
}

#[test]
fn command_line_gives_three_numbers() {
    assert_eq!(parse_args(&args(&["os", "2", " 3", "1 ", "extra"])), Ok((2, 3, 1)));
}

#[test]
fn command_line_errors_in_order() {
    assert_eq!(parse_args(&args(&["os"])), Err(ArgError::MissingArgument));
    assert_eq!(parse_args(&args(&["os", "x"])), Err(ArgError::InvalidUsers));
    assert_eq!(parse_args(&args(&["os", "1"])), Err(ArgError::MissingArgument));
    assert_eq!(parse_args(&args(&["os", "1", "y"])), Err(ArgError::InvalidDisks));
    assert_eq!(parse_args(&args(&["os", "1", "2"])), Err(ArgError::MissingArgument));
    assert_eq!(parse_args(&args(&["os", "1", "2", "z"])), Err(ArgError::InvalidPrinters));
}

#[test]
fn split_lines_matches_std() {
    for s in ["", "a", "a\n", "a\nb", "a\r\nb\r\n", "\n\n", "x\r\r\ny", "one\n\ntwo\n"] {
        let expected: Vec<String> = s.lines().map(|l| l.to_string()).collect();
        assert_eq!(split_lines(s), expected, "{s:?}");
    }
}

#[test]
fn split_lines_keeps_final_carriage_return() {
    assert_eq!(split_lines("a\nb\r"), vec!["a".to_string(), "b\r".to_string()]);
}
