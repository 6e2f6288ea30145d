use termicode::data::{get_codepoint_gaps, parse_unicode_data, ParseError};
use termicode::query::{get_unicode_items, query_name};

fn codepoints_of(text: &str, query: &str) -> Vec<u32> {
    let file = parse_unicode_data(text).expect("table should parse");
    query_name(query.to_string(), &file, 20)
        .into_iter()
        .map(|i| file.records[i].codepoint)
        .collect()
}

#[test]
fn gap_coverage_synthetic_table() {
    let text = "1;ONE;Lu\n2;TWO;Lu\n5;FIVE;Lu\n6;SIX;Lu\n9;NINE;Lu\n";
    let file = parse_unicode_data(text).expect("table should parse");
    assert_eq!(file.gaps, vec![(2, 5), (6, 9)]);
    assert_eq!(get_unicode_items(&file), vec![1, 2, 5, 6, 9]);
}

#[test]
fn gap_list_straight_from_text() {
    let text = "1;ONE;Lu\n2;TWO;Lu\n5;FIVE;Lu\n6;SIX;Lu\n9;NINE;Lu\n";
    assert_eq!(get_codepoint_gaps(text), vec![(2, 5), (6, 9)]);
}

#[test]
fn gap_list_skips_unreadable_lines() {
    let text = "1;ONE;Lu\nzz;BAD;Lu\n3;THREE;Lu\n";
    assert_eq!(get_codepoint_gaps(text), vec![(1, 3)]);
}

#[test]
fn dense_walk_covers_wide_gap() {
    let text = "41;LATIN CAPITAL LETTER A;Lu\n1f600;GRINNING FACE;So\n1f601;GRINNING FACE WITH SMILING EYES;So\n";
    let file = parse_unicode_data(text).expect("table should parse");
    assert_eq!(file.gaps, vec![(0x41, 0x1f600)]);
    assert_eq!(get_unicode_items(&file), vec![0x41, 0x1f600, 0x1f601]);
}

#[test]
fn results_strictly_ascending() {
    let text = "1;CAT ONE;Lu\n4;CAT FOUR;Lu\n7;DOG;Lu\n9;CAT NINE;Lu\nff;CAT HEX;Lu\n";
    let cps = codepoints_of(text, "CAT");
    assert_eq!(cps, vec![1, 4, 9, 0xff]);
    for w in cps.windows(2) {
        assert!(w[0] < w[1]);
    }
}

#[test]
fn substring_match_is_case_insensitive() {
    let text = "1;BLACK CAT FACE;So\n2;DOG FACE;So\n";
    assert_eq!(codepoints_of(text, "CAT"), vec![1]);
    assert_eq!(codepoints_of(text, "cat"), vec![1]);
}

#[test]
fn empty_query_matches_everything() {
    let text = "1;ONE;Lu\n2;TWO;Lu\n5;FIVE;Lu\n";
    assert_eq!(codepoints_of(text, ""), vec![1, 2, 5]);
}

#[test]
fn regex_mode_anchored_match() {
    let text = "61;LATIN SMALL LETTER A;Ll\n62;LATIN SMALL LETTER B;Ll\ne0;LATIN SMALL LETTER A WITH GRAVE;Ll\n";
    assert_eq!(codepoints_of(text, "/^LATIN SMALL LETTER A$/"), vec![0x61]);
}

#[test]
fn malformed_regex_falls_back_to_substring() {
    let text = "1;WEIRD /(UNCLOSED/ MARK;So\n2;PLAIN MARK;So\n";
    assert_eq!(codepoints_of(text, "/(unclosed/"), vec![1]);
}

#[test]
fn requery_is_stable_and_truncated() {
    let mut text = String::new();
    for i in 1..=30u32 {
        text.push_str(&format!("{:x};CAT NUMBER {};Lu\n", i, i));
    }
    let file = parse_unicode_data(&text).expect("table should parse");
    let first = query_name("CAT".to_string(), &file, 20);
    let second = query_name("CAT".to_string(), &file, 20);
    assert_eq!(first.len(), 20);
    assert_eq!(first, second);
    let expect: Vec<usize> = (0..20).collect();
    assert_eq!(first, expect);
}

#[test]
fn parse_reads_fields() {
    let text = "1f600;GRINNING FACE;So;0;ON;;;;;N;;;;;\n";
    let file = parse_unicode_data(text).expect("table should parse");
    assert_eq!(file.records.len(), 1);
    assert_eq!(file.records[0].codepoint, 0x1f600);
    assert_eq!(file.records[0].name, "GRINNING FACE");
    assert_eq!(file.records[0].category, "So");
    assert_eq!(file.gaps, Vec::<(u32, u32)>::new());
}

#[test]
fn parse_empty_text_gives_empty_table() {
    let file = parse_unicode_data("").expect("empty text should parse");
    assert_eq!(file.records.len(), 0);
    assert!(get_unicode_items(&file).is_empty());
}

#[test]
fn parse_rejects_bad_codepoint() {
    assert!(matches!(parse_unicode_data("xyz;A;Lu\n"), Err(ParseError::InvalidCodepoint)));
}

#[test]
fn parse_rejects_codepoint_overflow() {
    assert!(matches!(parse_unicode_data("fffffffff;A;Lu\n"), Err(ParseError::InvalidCodepoint)));
}

#[test]
fn parse_rejects_missing_fields() {
    assert!(matches!(parse_unicode_data("41\n"), Err(ParseError::MissingFields)));
    assert!(matches!(parse_unicode_data("41;ONLY NAME\n"), Err(ParseError::MissingFields)));
}

#[test]
fn parse_rejects_out_of_order_lines() {
    assert!(matches!(parse_unicode_data("2;B;Lu\n1;A;Lu\n"), Err(ParseError::OutOfOrder)));
    assert!(matches!(parse_unicode_data("2;B;Lu\n2;B AGAIN;Lu\n"), Err(ParseError::OutOfOrder)));
}

#[test]
fn parse_reports_first_offending_line() {
    let text = "1;A;Lu\n2;B;Lu\nbad\n1;EARLY;Lu\n";
    assert!(matches!(parse_unicode_data(text), Err(ParseError::MissingFields)));
}

#[test]
fn query_cap_zero_yields_nothing() {
    let text = "1;ONE;Lu\n2;TWO;Lu\n";
    let file = parse_unicode_data(text).expect("table should parse");
    assert!(query_name("".to_string(), &file, 0).is_empty());
}
