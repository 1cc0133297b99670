use quote_stream::text::{chars_of, join_strings, push_decimal, split_pieces, split_words, trim_str, Separator};

#[test]
fn trim_removes_surrounding_whitespace() {
    assert_eq!(trim_str("  STREAM x \r\n"), "STREAM x");
    assert_eq!(trim_str("\t\n "), "");
    assert_eq!(trim_str("AAPL"), "AAPL");
    assert_eq!(trim_str("\u{3000}A B\u{a0}"), "A B");
}

#[test]
fn words_skip_runs_of_whitespace() {
    assert_eq!(split_words("  STREAM   udp://a:1\tA,B \n"), vec!["STREAM", "udp://a:1", "A,B"]);
    assert!(split_words(" \t ").is_empty());
}

#[test]
fn pieces_keep_empty_ones() {
    assert_eq!(split_pieces("A,,B,", Separator::Char(',')), vec!["A", "", "B", ""]);
    assert_eq!(split_pieces("", Separator::Char(',')), vec![""]);
}

#[test]
fn join_puts_separator_between() {
    let v = vec!["AAPL".to_string(), "TSLA".to_string(), "X".to_string()];
    assert_eq!(join_strings(&v, ','), "AAPL,TSLA,X");
    assert_eq!(join_strings(&Vec::new(), ','), "");
    assert_eq!(join_strings(&vec!["A".to_string()], ','), "A");
}

#[test]
fn decimal_rendering() {
    let mut s = String::from("port ");
    push_decimal(&mut s, 45222);
    assert_eq!(s, "port 45222");
    let mut z = String::new();
    push_decimal(&mut z, 0);
    assert_eq!(z, "0");
}

#[test]
fn chars_of_keeps_order() {
    assert_eq!(chars_of("aé€"), vec!['a', 'é', '€']);
}
