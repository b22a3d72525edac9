use pasoqa3::delimited::extract_text_delimited_by;
use pasoqa3::ids::{parse_id, IdSequenceParser};
use pasoqa3::parser::LogMessageParser;
use pasoqa3::reader::LogReader;

#[test]
fn parser_test_trim_line_timestamp() {
    let text = " 25:04 ClientConnect: 2";
    let result = LogMessageParser::trim_timestamp(text);
    let expected = "ClientConnect: 2";

    assert_eq!(expected, result);

    let text = "  0:00 --------";
    let result = LogMessageParser::trim_timestamp(text);
    let expected = "--------";

    assert_eq!(expected, result);

    let text = "981:36 ClientUserinfoChanged: 6 blablabla 0";
    let result = LogMessageParser::trim_timestamp(text);
    let expected = "ClientUserinfoChanged: 6 blablabla 0";

    assert_eq!(expected, result);
}

#[test]
fn trim_timestamp_of_a_line_that_is_all_timestamp() {
    assert_eq!(LogMessageParser::trim_timestamp(" 12:00 "), "");
    assert_eq!(LogMessageParser::trim_timestamp(":"), "");
    assert_eq!(LogMessageParser::trim_timestamp(""), "");
}

#[test]
fn trim_timestamp_skips_unicode_whitespace_and_numerals() {
    // U+3000 is an ideographic space, U+0663 an Arabic-Indic digit three.
    assert_eq!(LogMessageParser::trim_timestamp("\u{3000}\u{663}:1 Kill:"), "Kill:");
}

#[test]
fn test_extract_text_delimited_by() {
    let haystack = "check @@ this ## out";

    let left = "@@";
    let right = "##";

    let extracted = extract_text_delimited_by(haystack, left, right);

    assert_eq!(extracted.as_deref(), Some(" this "));
}

#[test]
fn extract_delimited_missing_either_marker() {
    assert_eq!(extract_text_delimited_by("check this ## out", "@@", "##"), None);
    assert_eq!(extract_text_delimited_by("check @@ this out", "@@", "##"), None);
    // The right marker must come after the left one.
    assert_eq!(extract_text_delimited_by("## check @@ this", "@@", "##"), None);
}

#[test]
fn extract_delimited_takes_first_markers() {
    assert_eq!(
        extract_text_delimited_by("a [x] b [y] c", "[", "]").as_deref(),
        Some("x")
    );
    assert_eq!(
        extract_text_delimited_by(r"2 n\Alice\t\model\x", r"n\", r"\t").as_deref(),
        Some("Alice")
    );
    assert_eq!(extract_text_delimited_by("ab", "a", "b").as_deref(), Some(""));
}

#[test]
fn id_sequence_reads_tokens_then_ends() {
    let mut ids = IdSequenceParser::new("2 5:");
    assert_eq!(ids.next(), Some(2));
    assert_eq!(ids.next(), Some(5));
    assert_eq!(ids.next(), None);
}

#[test]
fn id_sequence_stops_at_a_malformed_token() {
    let mut ids = IdSequenceParser::new("1022 x7 3");
    assert_eq!(ids.next(), Some(1022));
    assert_eq!(ids.next(), None);
    assert_eq!(ids.next(), None);

    let mut ids = IdSequenceParser::new("x 5");
    assert_eq!(ids.next(), None);
    assert_eq!(ids.next(), None);
}

#[test]
fn id_tokens_end_at_any_whitespace() {
    assert_eq!(parse_id("5\tx"), Some(5));
    let mut ids = IdSequenceParser::new("7\t8\n9");
    assert_eq!(ids.next(), Some(7));
    assert_eq!(ids.next(), Some(8));
    assert_eq!(ids.next(), Some(9));
    assert_eq!(ids.next(), None);
}

#[test]
fn id_sequence_on_empty_text() {
    let mut ids = IdSequenceParser::new("   ");
    assert_eq!(ids.next(), None);
    assert_eq!(ids.next(), None);
}

#[test]
fn parse_id_reads_the_first_token() {
    assert_eq!(parse_id("  7 rest"), Some(7));
    assert_eq!(parse_id("12:34"), Some(12));
    assert_eq!(parse_id("+42"), Some(42));
    assert_eq!(parse_id("65535"), Some(65535));
}

#[test]
fn parse_id_rejects_what_is_no_u16() {
    assert_eq!(parse_id("65536"), None);
    assert_eq!(parse_id("-1"), None);
    assert_eq!(parse_id("+"), None);
    assert_eq!(parse_id(""), None);
    assert_eq!(parse_id(":5"), None);
    assert_eq!(parse_id("5x"), None);
}

#[test]
fn log_reader_hands_out_kill_lines() {
    let lines = vec![
        " 0:00 InitGame: x".to_string(),
        " 1:00 Kill: 2 3 7: a killed b by MOD_X".to_string(),
        " 1:01 ClientBegin: 2".to_string(),
        " 1:02 Kill: 1022 3 22: <world> killed b by MOD_FALLING".to_string(),
    ];
    let mut reader = LogReader::new(lines);
    assert_eq!(
        reader.next().as_deref(),
        Some(" 1:00 Kill: 2 3 7: a killed b by MOD_X")
    );
    assert_eq!(
        reader.next().as_deref(),
        Some(" 1:02 Kill: 1022 3 22: <world> killed b by MOD_FALLING")
    );
    assert_eq!(reader.next(), None);
}
