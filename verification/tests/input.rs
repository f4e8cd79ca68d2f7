use rust_scrapper::input::{is_yes, output_filename, parse_count, strip_line_ending};
use rust_scrapper::selectors::{str_eq, SelectorSpec};

#[test]
fn strip_line_ending_takes_one_ending_off() {
    assert_eq!(strip_line_ending("abc\n"), "abc");
    assert_eq!(strip_line_ending("abc\r\n"), "abc");
    assert_eq!(strip_line_ending("abc\r"), "abc");
    assert_eq!(strip_line_ending("abc"), "abc");
    assert_eq!(strip_line_ending("abc\n\n"), "abc\n");
    assert_eq!(strip_line_ending("abc\n\r"), "abc\n");
    assert_eq!(strip_line_ending("abc\r\r\n"), "abc\r");
    assert_eq!(strip_line_ending(""), "");
    assert_eq!(strip_line_ending("\n"), "");
    assert_eq!(strip_line_ending("é \n"), "é ");
}

#[test]
fn is_yes_takes_the_letter_in_either_case() {
    assert!(is_yes("y"));
    assert!(is_yes("Y"));
    assert!(!is_yes("yes"));
    assert!(!is_yes(" y"));
    assert!(!is_yes("n"));
    assert!(!is_yes(""));
    for sample in ["y", "Y", "yes", "n", "", "ｙ", "Ｙ"] {
        assert_eq!(is_yes(sample), sample.to_lowercase() == "y");
    }
}

#[test]
fn output_filename_falls_back_to_the_default() {
    assert_eq!(output_filename(String::new()), "scraped_data.csv");
    assert_eq!(output_filename("  \t".to_string()), "scraped_data.csv");
    assert_eq!(output_filename("out.csv".to_string()), "out.csv");
    assert_eq!(output_filename(" out.csv ".to_string()), " out.csv ");
}

#[test]
fn parse_count_reads_decimal_numbers() {
    assert_eq!(parse_count("0"), Some(0));
    assert_eq!(parse_count("7"), Some(7));
    assert_eq!(parse_count("007"), Some(7));
    assert_eq!(parse_count("+12"), Some(12));
    assert_eq!(parse_count("1234567890"), Some(1234567890));
    assert_eq!(parse_count(&usize::MAX.to_string()), Some(usize::MAX));
}

#[test]
fn parse_count_refuses_what_is_no_count() {
    for bad in ["", "+", "-", "-1", "++1", "1+", " 1", "1 ", "1.0", "abc", "１２", "1e3"] {
        assert_eq!(parse_count(bad), None);
    }
    assert_eq!(parse_count("18446744073709551616"), None);
    assert_eq!(parse_count("99999999999999999999999"), None);
}

#[test]
fn parse_count_agrees_with_std() {
    for sample in ["", "+", "+0", "-0", "42", "+42", "4 2", "18446744073709551615", "18446744073709551616", "000000000000000000000001"] {
        assert_eq!(parse_count(sample), sample.parse::<usize>().ok());
    }
}

#[test]
fn str_eq_compares_characters() {
    assert!(str_eq("", ""));
    assert!(str_eq("abc", "abc"));
    assert!(!str_eq("abc", "abd"));
    assert!(!str_eq("abc", "ab"));
    assert!(str_eq("é", "é"));
}

#[test]
fn selectors_keep_insertion_order_and_unique_names() {
    let mut spec = SelectorSpec::new();
    assert_eq!(spec.len(), 0);
    assert_eq!(spec.insert("title".to_string(), "h1".to_string()), None);
    assert_eq!(spec.insert("link".to_string(), "a".to_string()), None);
    assert_eq!(spec.insert("title".to_string(), "h2".to_string()), Some("h1".to_string()));
    assert_eq!(spec.len(), 2);
    assert_eq!(spec.name_at(0), "title");
    assert_eq!(spec.expr_at(0), "h2");
    assert_eq!(spec.name_at(1), "link");
    assert_eq!(spec.expr_at(1), "a");
    assert_eq!(spec.find("link"), Some(1));
    assert_eq!(spec.find("none"), None);
}
