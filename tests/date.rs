use bulk_format::date::{Date, DateError};

#[test]
fn cmp_dates() {
    let date1 = Date { year: 2020, month: Some(1), day: Some(1) };
    let date2 = Date { year: 2020, month: Some(1), day: Some(2) };
    let date3 = Date { year: 2020, month: Some(2), day: Some(1) };
    let date4 = Date { year: 2021, month: Some(1), day: Some(1) };
    assert!(date1 < date2);
    assert!(date2 < date3);
    assert!(date3 < date4);
}

#[test]
fn unknown_fields_sort_first() {
    let year = Date { year: 1944, month: None, day: None };
    let month = Date { year: 1944, month: Some(1), day: None };
    let day = Date { year: 1944, month: Some(1), day: Some(1) };
    assert!(year < month);
    assert!(month < day);
    assert!(year < day);
    assert!(Date { year: 1943, month: Some(12), day: Some(31) } < year);
    assert_eq!(year.partial_cmp(&year), Some(std::cmp::Ordering::Equal));
    assert_eq!(day.partial_cmp(&month), Some(std::cmp::Ordering::Greater));
}

#[test]
fn parse_one_two_three_components() {
    assert_eq!(Date::parse("1944"), Ok(Date { year: 1944, month: None, day: None }));
    assert_eq!(Date::parse("1944-8"), Ok(Date { year: 1944, month: Some(8), day: None }));
    assert_eq!(Date::parse("1944-8-6"), Ok(Date { year: 1944, month: Some(8), day: Some(6) }));
    assert_eq!(Date::parse("+1944"), Ok(Date { year: 1944, month: None, day: None }));
}

#[test]
fn parse_errors() {
    assert_eq!(Date::parse("x"), Err(DateError::InvalidYear));
    assert_eq!(Date::parse(""), Err(DateError::InvalidYear));
    assert_eq!(Date::parse("1944-x"), Err(DateError::InvalidMonth));
    assert_eq!(Date::parse("1944-8-"), Err(DateError::InvalidDay));
    assert_eq!(Date::parse("1-2-3-4"), Err(DateError::WrongComponentCount));
    assert_eq!(Date::parse("99999999999"), Err(DateError::InvalidYear));
}

#[test]
fn display_round_trips_canonical_text() {
    for text in ["1944", "1944-8", "1944-8-6", "2020-12-31", "0-0-0"] {
        let d = Date::parse(text).unwrap();
        assert_eq!(d.display(), text);
    }
}

#[test]
fn display_drops_leading_zeros() {
    let d = Date::parse("1944-08-06").unwrap();
    assert_eq!(d.display(), "1944-8-6");
}

#[test]
fn display_negative_year() {
    let d = Date { year: -44, month: Some(3), day: Some(15) };
    assert_eq!(d.display(), "-44-3-15");
}
