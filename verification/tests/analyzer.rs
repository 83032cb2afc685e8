use space_mission_log_analysis::analyzer::{
    find_longest_successful_mars_mission, is_successful_mars_mission, longest_missions,
};
use space_mission_log_analysis::parser::Mission;

fn mission(destination: &str, status: &str, duration: u64, security_code: &str) -> Mission {
    Mission {
        destination: destination.to_string(),
        status: status.to_string(),
        duration,
        security_code: security_code.to_string(),
    }
}

#[test]
fn test_filter_accepts_only_completed_mars() {
    assert!(is_successful_mars_mission(&mission("Mars", "Completed", 1, "A")));
    assert!(!is_successful_mars_mission(&mission("mars", "Completed", 1, "A")));
    assert!(!is_successful_mars_mission(&mission("Mars", "completed", 1, "A")));
    assert!(!is_successful_mars_mission(&mission("Mars", "Completed ", 1, "A")));
    assert!(!is_successful_mars_mission(&mission(" Mars", "Completed", 1, "A")));
    assert!(!is_successful_mars_mission(&mission("Venus", "Completed", 1, "A")));
    assert!(!is_successful_mars_mission(&mission("Mars", "Aborted", 1, "A")));
    assert!(!is_successful_mars_mission(&mission("", "", 1, "A")));
}

#[test]
fn test_longest_missions_all_max_returned() {
    let missions = vec![
        mission("Mars", "Completed", 200, "CODE-ABC"),
        mission("Mars", "Completed", 150, "SHORT-1"),
        mission("Mars", "Completed", 200, "BIGGER-999"),
    ];
    let longest = longest_missions(&missions);
    let codes: Vec<&str> = longest.iter().map(|m| m.security_code.as_str()).collect();
    assert_eq!(codes, vec!["CODE-ABC", "BIGGER-999"]);
    assert!(longest.iter().all(|m| m.duration == 200));
}

#[test]
fn test_longest_missions_idempotent() {
    let missions = vec![
        mission("Mars", "Completed", 200, "CODE-ABC"),
        mission("Mars", "Completed", 150, "SHORT-1"),
        mission("Mars", "Completed", 200, "BIGGER-999"),
    ];
    let once = longest_missions(&missions);
    let twice = longest_missions(&once);
    let once_codes: Vec<&str> = once.iter().map(|m| m.security_code.as_str()).collect();
    let twice_codes: Vec<&str> = twice.iter().map(|m| m.security_code.as_str()).collect();
    assert_eq!(once_codes, twice_codes);
}

#[test]
fn test_find_longest_successful_mars_mission_no_data() {
    let input = "# This is a comment\n# Another comment\n";
    let result = find_longest_successful_mars_mission(input);
    assert!(result.is_err());
    assert_eq!(
        result.unwrap_err(),
        "No successful Mars missions found in the file."
    );
}

#[test]
fn test_find_longest_successful_mars_mission_ok() {
    let input = "\
        # comment\n\
        2045-07-12 | KLM-1234 | Mars  | Completed | 5 | 200 | 98.7 | CODE-ABC\n\
        2046-07-12 | XYZ-9999 | Mars  | Completed | 5 | 200 | 99.0 | BIGGER-999\n\
        2047-01-01 | ABC-7777 | Venus | Completed | 3 |  10 | 90.0 | IGNORE-ME\n\
        ";
    let result = find_longest_successful_mars_mission(input).unwrap();
    assert_eq!(result.len(), 2);
    let security_codes: Vec<_> = result.iter().map(|m| m.security_code.as_str()).collect();
    assert!(security_codes.contains(&"CODE-ABC"));
    assert!(security_codes.contains(&"BIGGER-999"));
}

#[test]
fn test_find_longest_excludes_other_destinations() {
    let input = "\n\
        # Some comment\n\
        2030-11-20 | ABC-1234 | Mars | Completed | 10 | 250 | 96.0 | SEC-XYZ-111\n\
        2031-01-10 | ZZZ-4321 | Mars | Completed | 8 | 400 | 99.9 | SEC-ABC-999\n\
        2031-05-12 | TTT-9999 | Jupiter | Completed | 6 | 500 | 87.0 | SEC-JUP-500\n\
        ";
    let result = find_longest_successful_mars_mission(input).unwrap();
    assert_eq!(result.len(), 1);
    assert_eq!(result[0].security_code, "SEC-ABC-999");
    assert_eq!(result[0].duration, 400);
}

#[test]
fn test_find_longest_single_record() {
    let input = "2045-07-12 | KLM-1234 | Mars | Completed | 5 | 387 | 98.7 | TRX-842-YHG\n";
    let result = find_longest_successful_mars_mission(input).unwrap();
    assert_eq!(result.len(), 1);
    assert_eq!(result[0].security_code, "TRX-842-YHG");
    assert_eq!(result[0].duration, 387);
}

#[test]
fn test_find_longest_empty_input() {
    let result = find_longest_successful_mars_mission("");
    assert!(result.is_err());
}

#[test]
fn test_find_longest_skips_malformed_lines() {
    let input = "\
        garbage without pipes\n\
        2045-07-12 | KLM-1234 | Mars | Completed | 5 | not-a-number | 98.7 | BAD-DUR\n\
        2045-07-12 | KLM-1234 | Mars | Completed | 5 | 12 | 98.7 | GOOD-12\n\
        ";
    let result = find_longest_successful_mars_mission(input).unwrap();
    assert_eq!(result.len(), 1);
    assert_eq!(result[0].security_code, "GOOD-12");
}

#[test]
fn test_find_longest_handles_crlf_lines() {
    let input = "2045-07-12 | KLM-1234 | Mars | Completed | 5 | 21 | 98.7 | CR-21\r\n\
        2046-07-12 | XYZ-9999 | Mars | Completed | 5 | 9 | 98.7 | CR-9\r\n";
    let result = find_longest_successful_mars_mission(input).unwrap();
    assert_eq!(result.len(), 1);
    assert_eq!(result[0].security_code, "CR-21");
}
