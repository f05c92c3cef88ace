use red_robin::output::{
    any_failed, escape_json, format_result, format_row, overall_rating, pad_right,
    serde_json_output, successful_count, truncate,
};
use red_robin::ratings::Rating;
use red_robin::result::TestResult;

fn ok(name: &str) -> TestResult {
    TestResult::yum(name.to_string(), "1 ms".to_string())
}

fn bad(name: &str) -> TestResult {
    TestResult::yuck(name.to_string(), "-".to_string(), "down".to_string())
}

#[test]
fn overall_rating_of_runs() {
    assert_eq!(overall_rating(&[]), None);
    assert_eq!(overall_rating(&[ok("a"), ok("b")]), Some(Rating::Yum));
    assert_eq!(overall_rating(&[ok("a"), bad("b")]), Some(Rating::Meh));
    assert_eq!(overall_rating(&[bad("a"), bad("b")]), Some(Rating::Yuck));
}

#[test]
fn counts_of_runs() {
    let results = [ok("a"), bad("b"), ok("c")];
    assert_eq!(successful_count(&results), 2);
    assert!(any_failed(&results));
    assert!(!any_failed(&[ok("a")]));
    assert!(!any_failed(&[]));
    assert_eq!(successful_count(&[]), 0);
}

#[test]
fn truncation_keeps_short_text_and_marks_cuts() {
    assert_eq!(truncate("short", 28), "short");
    assert_eq!(truncate("exactly", 7), "exactly");
    assert_eq!(truncate("abcdefghij", 8), "abcde...");
    assert_eq!(truncate("ééééé", 4), "é...");
    assert_eq!(truncate("abcdef", 2), "...");
    let long = "A very long location name that overflows";
    assert_eq!(truncate(long, 28).chars().count(), 28);
}

#[test]
fn padding_fills_to_width() {
    assert_eq!(pad_right("ab", 5), "ab   ");
    assert_eq!(pad_right("abcdef", 3), "abcdef");
    assert_eq!(pad_right("", 2), "  ");
    assert_eq!(pad_right("ü", 3), format!("{:<3}", "ü"));
}

#[test]
fn rows_match_the_column_layout() {
    assert_eq!(
        format_row("LOCATION / TARGET", "STATUS", "STATISTICS"),
        format!("{:<28} {:<10} {}", "LOCATION / TARGET", "STATUS", "STATISTICS")
    );
    let result = TestResult::meh("Name".to_string(), "12.0 ms avg".to_string());
    assert_eq!(
        format_result(&result),
        format!("{:<28} {:<10} {}", "Name", "MEH", "12.0 ms avg")
    );
    let long = TestResult::yum("x".repeat(40), "s".to_string());
    let row = format_result(&long);
    assert!(row.starts_with(&format!("{}...", "x".repeat(25))));
    assert_eq!(row, format!("{} {:<10} s", format!("{}...", "x".repeat(25)), "YUM"));
}

#[test]
fn json_escapes_special_characters() {
    assert_eq!(escape_json("plain"), "plain");
    assert_eq!(escape_json("a\"b\\c"), "a\\\"b\\\\c");
    assert_eq!(escape_json("l1\nl2\r\tend"), "l1\\nl2\\r\\tend");
    let escaped = escape_json("\n\r\t\"\\");
    assert!(!escaped.contains('\n') && !escaped.contains('\r') && !escaped.contains('\t'));
}

#[test]
fn json_output_lists_every_result() {
    assert_eq!(serde_json_output(&[]), "[\n]");
    let results = [ok("Google \"DNS\""), bad("Tor")];
    let expected = "[\n  {\n    \"name\": \"Google \\\"DNS\\\"\",\n    \"rating\": \"YUM\",\n    \"statistics\": \"1 ms\",\n    \"success\": true\n  },\n  {\n    \"name\": \"Tor\",\n    \"rating\": \"YUCK\",\n    \"statistics\": \"-\",\n    \"success\": false\n  }\n]";
    assert_eq!(serde_json_output(&results), expected);
}

#[test]
fn result_constructors_set_rating_and_outcome() {
    let s = TestResult::success("n".to_string(), "R".to_string(), "st".to_string());
    assert!(s.success && s.message.is_none() && s.rating == "R" && s.statistics == "st");
    let f = TestResult::failure("n".to_string(), "R".to_string(), "st".to_string(), "m".to_string());
    assert!(!f.success && f.message.as_deref() == Some("m"));
    assert_eq!(TestResult::yum("n".to_string(), String::new()).rating, Rating::Yum.as_str());
    assert_eq!(TestResult::meh("n".to_string(), String::new()).rating, Rating::Meh.as_str());
    let y = TestResult::yuck("n".to_string(), String::new(), "why".to_string());
    assert_eq!(y.rating, Rating::Yuck.as_str());
    assert!(!y.success);
    assert_eq!(y.message.as_deref(), Some("why"));
}
