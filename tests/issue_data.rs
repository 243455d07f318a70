use bulk_format::date_text::DateTextError;
use bulk_format::diagnostic::Diagnostic;
use bulk_format::issue_data::{IssueData, TitleError};

fn parse(raw: &str) -> (Result<IssueData, TitleError>, Vec<Diagnostic>) {
    let mut log = Vec::new();
    let r = IssueData::try_new("T".to_string(), raw.to_string(), "x".to_string(), &mut log);
    (r, log)
}

#[test]
fn comma_separated_volume_and_issue() {
    let d = IssueData::new(
        "T1".to_string(),
        "Arizona Catering Employees. v. 1, no. 11 (Sep. 21, 1944)".to_string(),
        "x".to_string(),
    );
    assert_eq!(d.tn, "T1");
    assert_eq!(d.title, "Arizona_Catering_Employees");
    assert_eq!(d.volume, Some(1));
    assert_eq!(d.issue, Some(11));
    assert_eq!(d.date, "1944-09-21");
    assert_eq!(d.date_loaded, "x");
}

#[test]
fn space_separated_volume_and_issue() {
    let mut log = Vec::new();
    let d = IssueData::try_new(
        "T2".to_string(),
        "Arizona Catering Employees. v. 9 no 9 (Jul. 11, 1952)".to_string(),
        "x".to_string(),
        &mut log,
    )
    .unwrap();
    assert_eq!(d.volume, Some(9));
    assert_eq!(d.issue, Some(9));
    assert_eq!(d.date, "1952-07-11");
    assert_eq!(
        log,
        vec![
            Diagnostic::VolumeIssueNotCommaSeparated { text: "v.9 no9".to_string() },
            Diagnostic::VolumeIssueSplitOnSpace {
                volume: "v.9".to_string(),
                issue: "no9".to_string(),
            },
        ]
    );
}

#[test]
fn empty_volume_and_issue() {
    let d = IssueData::new("T3".to_string(), "Foo. (Jan. 1, 1950)".to_string(), "x".to_string());
    assert_eq!(d.title, "Foo");
    assert_eq!(d.volume, None);
    assert_eq!(d.issue, None);
    assert_eq!(d.date, "1950-01-01");
}

#[test]
fn title_without_volume_keeps_no_separator() {
    let (r, log) = parse("Arizona Catering Employees. (Aug. 6, 1944)");
    let d = r.unwrap();
    assert_eq!(d.title, "Arizona_Catering_Employees");
    assert_eq!(d.volume, None);
    assert_eq!(d.date, "1944-08-06");
    assert!(log.is_empty());
}

#[test]
fn missing_opening_parenthesis() {
    let (r, log) = parse("Foo. v. 1, no. 11 Sep. 21 1944)");
    let d = r.unwrap();
    assert_eq!(d.title, "Foo");
    assert_eq!(d.volume, Some(1));
    assert_eq!(d.issue, Some(11));
    assert_eq!(d.date, "1944-09-21");
    assert_eq!(log.len(), 2);
    assert_eq!(log[1], Diagnostic::MonthFound { month: 9, part: 5 });
}

#[test]
fn comma_inside_unparenthesised_date_splits_volume() {
    let (r, log) = parse("Arizona Catering Employees. v. 1 no 11 Sep. 21, 1944)");
    assert_eq!(r.unwrap_err(), TitleError::InvalidVolume);
    assert_eq!(log[1], Diagnostic::MonthFound { month: 9, part: 7 });
}

#[test]
fn title_errors() {
    assert_eq!(parse("Foo (Jan. 1, 1950)").0.unwrap_err(), TitleError::NoTitleSeparator);
    assert_eq!(parse("Foo. v1 (Jan. 1, 1950)").0.unwrap_err(), TitleError::VolumeIssueNotSplit);
    assert_eq!(parse("Foo. v. x, no. 1 (Jan. 1, 1950)").0.unwrap_err(), TitleError::InvalidVolume);
    assert_eq!(parse("Foo. v. 1, no. x (Jan. 1, 1950)").0.unwrap_err(), TitleError::InvalidIssue);
    assert_eq!(
        parse("Foo. v. 1, no. 2 (Bar Baz)").0.unwrap_err(),
        TitleError::Date(DateTextError::NoMonth)
    );
}

#[test]
fn date_error_comes_before_title_error() {
    let (r, log) = parse("Foo (Bar Baz)");
    assert_eq!(r.unwrap_err(), TitleError::Date(DateTextError::NoMonth));
    assert_eq!(log.len(), 1);
}

#[test]
fn formatted_and_record_titles() {
    let d = IssueData::new(
        "T1".to_string(),
        "Arizona Catering Employees. v. 1, no. 11 (Sep. 21, 1944)".to_string(),
        "x".to_string(),
    );
    assert_eq!(d.formatted_title(), "Arizona_Catering_Employees_1944-09-21");
    assert_eq!(d.record_title(), "Arizona Catering Employees, 1944-09-21");
}
