use space_mission_log_analysis::parser::{parse_line, Mission};
use space_mission_log_analysis::text::parse_u64_str;

#[test]
fn test_parse_line_valid() {
    let line = "2045-07-12 | KLM-1234 | Mars | Completed | 5 | 387 | 98.7 | TRX-842-YHG";
    let mission = parse_line(line).unwrap();
    assert_eq!(mission.destination, "Mars");
    assert_eq!(mission.status, "Completed");
    assert_eq!(mission.duration, 387);
    assert_eq!(mission.security_code, "TRX-842-YHG");
}

#[test]
fn test_parse_line_commented() {
    let line = "# 2045-07-12 | KLM-1234 | Mars | Completed | 5 | 387 | 98.7 | TRX-842-YHG";
    assert_eq!(parse_line(line), None);
}

#[test]
fn test_parse_line_incomplete() {
    let line = "2045-07-12 | KLM-1234 | Mars";
    assert_eq!(parse_line(line), None);
}

#[test]
fn test_parse_line_blank() {
    assert_eq!(parse_line(""), None);
    assert_eq!(parse_line("   \t  "), None);
}

#[test]
fn test_parse_line_comment_after_whitespace() {
    assert_eq!(parse_line("   # a comment"), None);
}

#[test]
fn test_parse_line_trims_every_field() {
    let line = "\t 2045-07-12 |KLM-1234|   Mars\t|  Completed  | 5 |  387 | 98.7 |  TRX-842-YHG  \r";
    let mission = parse_line(line).unwrap();
    assert_eq!(mission.destination, "Mars");
    assert_eq!(mission.status, "Completed");
    assert_eq!(mission.duration, 387);
    assert_eq!(mission.security_code, "TRX-842-YHG");
}

#[test]
fn test_parse_line_non_integer_duration() {
    assert_eq!(
        parse_line("2045-07-12 | KLM-1234 | Mars | Completed | 5 | 38.7 | 98.7 | TRX-842-YHG"),
        None
    );
    assert_eq!(
        parse_line("2045-07-12 | KLM-1234 | Mars | Completed | 5 | many | 98.7 | TRX-842-YHG"),
        None
    );
    assert_eq!(
        parse_line("2045-07-12 | KLM-1234 | Mars | Completed | 5 | -387 | 98.7 | TRX-842-YHG"),
        None
    );
    assert_eq!(
        parse_line("2045-07-12 | KLM-1234 | Mars | Completed | 5 |  | 98.7 | TRX-842-YHG"),
        None
    );
}

#[test]
fn test_parse_line_tolerates_extra_fields() {
    let line = "2045-07-12 | KLM-1234 | Mars | Completed | 5 | 387 | 98.7 | TRX-842-YHG | extra";
    let mission = parse_line(line).unwrap();
    assert_eq!(mission.security_code, "TRX-842-YHG");
}

#[test]
fn test_parse_line_arbitrary_unused_fields() {
    let line = " | | Mars | Completed | ?? | 7 | !! | X-1";
    let mission = parse_line(line).unwrap();
    assert_eq!(mission.destination, "Mars");
    assert_eq!(mission.duration, 7);
    assert_eq!(mission.security_code, "X-1");
}

#[test]
fn test_from_line_split_valid() {
    let fields = ["2045-07-12", "KLM-1234", " Mars ", "Completed", "5", " 387", "98.7", "TRX-842-YHG"];
    let mission = Mission::from_line_split(&fields).unwrap();
    assert_eq!(mission.destination, "Mars");
    assert_eq!(mission.status, "Completed");
    assert_eq!(mission.duration, 387);
    assert_eq!(mission.security_code, "TRX-842-YHG");
}

#[test]
fn test_from_line_split_too_few_fields() {
    let fields = ["2045-07-12", "KLM-1234", "Mars", "Completed", "5", "387", "98.7"];
    assert_eq!(Mission::from_line_split(&fields), None);
}

#[test]
fn test_parse_u64_str_plain_and_signed() {
    assert_eq!(parse_u64_str("387"), Some(387));
    assert_eq!(parse_u64_str("+42"), Some(42));
    assert_eq!(parse_u64_str("0"), Some(0));
    assert_eq!(parse_u64_str(""), None);
    assert_eq!(parse_u64_str("+"), None);
    assert_eq!(parse_u64_str("-42"), None);
    assert_eq!(parse_u64_str("4 2"), None);
}

#[test]
fn test_parse_u64_str_limits() {
    assert_eq!(parse_u64_str("18446744073709551615"), Some(u64::MAX));
    assert_eq!(parse_u64_str("18446744073709551616"), None);
    assert_eq!(parse_u64_str("99999999999999999999999"), None);
    assert_eq!(parse_u64_str("000000000000000000000387"), Some(387));
}
