use nyc_train_cal::lines::{is_valid_line_code, strip_calendar_suffix, validate_line_token};

const ALL_LINES: &[&str] = &[
    "A", "C", "E", "B", "D", "F", "M", "G", "J", "Z", "L", "N", "Q", "R", "W", "1", "2", "3", "4",
    "5", "6", "7", "S", "SI",
];

#[test]
fn every_allow_list_member_accepted() {
    for line in ALL_LINES {
        assert!(is_valid_line_code(line), "expected {} to be accepted", line);
        assert!(validate_line_token(line), "expected token {} to be accepted", line);
    }
}

#[test]
fn every_allow_list_member_accepted_with_suffix() {
    for line in ALL_LINES {
        let token = format!("{}.ics", line);
        assert!(validate_line_token(&token), "expected token {} to be accepted", token);
    }
}

#[test]
fn tokens_outside_allow_list_rejected() {
    for token in ["a", "q", "si", "Si", "sI", "X", "H", "8", "0", "", "AA", "QQ", " A", "A ", "Ä"]
    {
        assert!(!validate_line_token(token), "expected token {:?} to be rejected", token);
    }
}

#[test]
fn comparison_is_case_sensitive() {
    assert!(validate_line_token("Q"));
    assert!(!validate_line_token("q"));
    assert!(validate_line_token("SI"));
    assert!(!validate_line_token("si"));
}

#[test]
fn suffixed_and_bare_token_validate_identically() {
    assert_eq!(validate_line_token("A.ics"), validate_line_token("A"));
    assert_eq!(validate_line_token("q.ics"), validate_line_token("q"));
    assert_eq!(validate_line_token("SI.ics"), validate_line_token("SI"));
    assert!(validate_line_token("A.ics"));
}

#[test]
fn only_one_suffix_is_stripped() {
    assert_eq!(strip_calendar_suffix("A.ics"), "A");
    assert_eq!(strip_calendar_suffix("A.ics.ics"), "A.ics");
    assert!(!validate_line_token("A.ics.ics"));
}

#[test]
fn strip_leaves_unsuffixed_tokens_alone() {
    assert_eq!(strip_calendar_suffix("A"), "A");
    assert_eq!(strip_calendar_suffix("SI"), "SI");
    assert_eq!(strip_calendar_suffix("ics"), "ics");
    assert_eq!(strip_calendar_suffix(".ics"), "");
    assert_eq!(strip_calendar_suffix("A.ICS"), "A.ICS");
    assert!(!validate_line_token(".ics"));
    assert!(!validate_line_token("A.ICS"));
}
