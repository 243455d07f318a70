use bulk_format::date_text::{convert_date, DateTextError};
use bulk_format::diagnostic::{Diagnostic, Severity};
use bulk_format::months::try_parse_month;

fn convert(text: &str) -> (Result<String, DateTextError>, Vec<Diagnostic>) {
    let mut log = Vec::new();
    let r = convert_date(text, &mut log);
    (r, log)
}

#[test]
fn full_date() {
    let (r, log) = convert("Aug. 6, 1944");
    assert_eq!(r, Ok("1944-08-06".to_string()));
    assert!(log.is_empty());
}

#[test]
fn month_and_year() {
    let (r, log) = convert("Sep. 1944");
    assert_eq!(r, Ok("1944-09".to_string()));
    assert_eq!(
        log,
        vec![
            Diagnostic::DateNotThreeParts { date: "Sep. 1944".to_string(), parts: 2 },
            Diagnostic::MonthFound { month: 9, part: 0 },
        ]
    );
}

#[test]
fn bare_year() {
    let (r, log) = convert("1944");
    assert_eq!(r, Ok("1944".to_string()));
    assert_eq!(log, vec![Diagnostic::DateNotThreeParts { date: "1944".to_string(), parts: 1 }]);
}

#[test]
fn leading_word_is_dropped() {
    let (r, log) = convert("Foo Aug. 6, 1944");
    assert_eq!(r, Ok("1944-08-06".to_string()));
    assert_eq!(
        log,
        vec![
            Diagnostic::DateNotThreeParts { date: "Foo Aug. 6, 1944".to_string(), parts: 4 },
            Diagnostic::MonthFound { month: 8, part: 1 },
        ]
    );
    assert_eq!(log[0].severity(), Severity::Warning);
    assert_eq!(log[1].severity(), Severity::Recovered);
}

#[test]
fn two_digit_day_is_kept() {
    assert_eq!(convert("Dec. 25, 1950").0, Ok("1950-12-25".to_string()));
}

#[test]
fn no_month_to_recover() {
    let (r, log) = convert("Foo Bar");
    assert_eq!(r, Err(DateTextError::NoMonth));
    assert_eq!(log.len(), 1);
}

#[test]
fn unknown_month() {
    assert_eq!(convert("Foo 6, 1944").0, Err(DateTextError::UnknownMonth));
    assert_eq!(convert("August 1944").0, Err(DateTextError::UnknownMonth));
}

#[test]
fn too_many_parts_after_month() {
    assert_eq!(convert("Aug. 6, 1944, extra").0, Err(DateTextError::WrongPartCount));
}

#[test]
fn month_table() {
    assert_eq!(try_parse_month("Jan"), Some("01".to_string()));
    assert_eq!(try_parse_month("Aug"), Some("08".to_string()));
    assert_eq!(try_parse_month("Oct"), Some("10".to_string()));
    assert_eq!(try_parse_month("Dec"), Some("12".to_string()));
    assert_eq!(try_parse_month("Aug."), None);
    assert_eq!(try_parse_month("aug"), None);
}
