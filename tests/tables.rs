use bulk_format::archive::{link_issues, populate_record, ArchiveRecord};
use bulk_format::diagnostic::Diagnostic;
use bulk_format::issue_data::TitleError;
use bulk_format::date_text::DateTextError;
use bulk_format::lookup::{build_lookup_table, LookupRow, LookupTable, RowError};
use bulk_format::reconcile::compare_tables;

fn record(node_title: &str) -> ArchiveRecord {
    ArchiveRecord {
        node_title: node_title.to_string(),
        assets: String::new(),
        attachments: String::new(),
        redact: String::new(),
        part_of: String::new(),
        previous_issue: String::new(),
        next_issue: String::new(),
        creator: String::new(),
        contributor: String::new(),
        publisher: String::new(),
        volume: String::new(),
        issue: String::new(),
        description: String::new(),
        subject: String::new(),
        date_original: String::new(),
        date_range: String::new(),
        type_: String::new(),
        original_format: String::new(),
        language: String::new(),
        contributing_institution: String::new(),
        collection: String::new(),
        subcollection: String::new(),
        rights_statement: String::new(),
        state_agency: String::new(),
        state_sub_agency: String::new(),
        federal_legislative_branch_agency: String::new(),
        federal_executive_department: String::new(),
        federal_executive_department_sub_agency_or_bureau: String::new(),
        federal_independent_agency: String::new(),
        federal_board_commission_or_committee: String::new(),
        federal_quasi_official_agency: String::new(),
        federal_court_or_judicial_agency: String::new(),
        city_or_town: String::new(),
        geographic_feature: String::new(),
        tribal_homeland: String::new(),
        road: String::new(),
        county: String::new(),
        state: String::new(),
        country: String::new(),
        agency: String::new(),
        event: String::new(),
        oral_history: String::new(),
        person: String::new(),
        place: String::new(),
        topic: String::new(),
        acquisition_note: String::new(),
        call_number: String::new(),
        vertical_file: String::new(),
        oclc_number: String::new(),
        date_digitized: String::new(),
        digital_format: String::new(),
        file_size: String::new(),
        digitizing_institution: String::new(),
        date_ingested: String::new(),
        batch_number: String::new(),
        admin_notes: String::new(),
    }
}
fn row(tn: &str, title: &str) -> LookupRow {
    LookupRow { tn: tn.to_string(), title: title.to_string(), date_loaded: "1/2/2023 10:00".to_string() }
}

fn table(rows: Vec<LookupRow>) -> LookupTable {
    let mut log: Vec<Diagnostic> = Vec::new();
    build_lookup_table(&rows, &mut log).unwrap()
}

fn names(v: &[&str]) -> Vec<String> {
    v.iter().map(|s| s.to_string()).collect()
}

#[test]
fn table_is_ordered_by_identifier() {
    let t = table(vec![row("b", "Bar. (Feb. 1, 1944)"), row("a", "Foo. (Jan. 1, 1944)")]);
    assert_eq!(t.len(), 2);
    assert_eq!(t.entry(0).tn, "a");
    assert_eq!(t.entry(1).tn, "b");
    assert_eq!(t.position("b"), Some(1));
    assert_eq!(t.position("c"), None);
}

#[test]
fn later_row_replaces_earlier_and_blank_identifier_is_skipped() {
    let t = table(vec![
        row("a", "Foo. (Jan. 1, 1944)"),
        row("", "not even a title"),
        row("a", "Foo. (Jan. 2, 1944)"),
    ]);
    assert_eq!(t.len(), 1);
    assert_eq!(t.entry(0).date, "1944-01-02");
    assert_eq!(t.entry(0).date_loaded, "1/2/2023 10:00");
}

#[test]
fn first_bad_row_stops_the_table() {
    let rows = vec![row("a", "Foo. (Jan. 1, 1944)"), row("b", "Foo (Jan. 1, 1944)"), row("c", "Bar Baz")];
    let mut log = Vec::new();
    let r = build_lookup_table(&rows, &mut log);
    assert_eq!(r.err(), Some(RowError { row: 1, error: TitleError::NoTitleSeparator }));
    assert!(log.is_empty());
    let rows = vec![row("c", "Foo. (Bar Baz)")];
    let r = build_lookup_table(&rows, &mut log);
    assert_eq!(r.err(), Some(RowError { row: 0, error: TitleError::Date(DateTextError::NoMonth) }));
    assert_eq!(log.len(), 1);
}

#[test]
fn duplicate_dates_are_flagged() {
    let t = table(vec![row("A", "Foo. (Jan. 1, 1944)"), row("B", "Foo. (Jan. 1, 1944)")]);
    let r = compare_tables(&t, &names(&["Foo, 1944-01-01"]));
    assert_eq!(
        r.duplicates,
        vec![("A".to_string(), "1944-01-01".to_string()), ("B".to_string(), "1944-01-01".to_string())]
    );
}

#[test]
fn distinct_dates_are_not_duplicates() {
    let t = table(vec![row("A", "Foo. (Jan. 1, 1944)"), row("B", "Foo. (Jan. 2, 1944)")]);
    let r = compare_tables(&t, &names(&[]));
    assert!(r.duplicates.is_empty());
    assert_eq!(r.missing.len(), 2);
    assert_eq!(r.index_range(), None);
    assert!(r.is_sequential());
    assert_eq!(r.verified_count(), 0);
}

#[test]
fn missing_entry_and_range() {
    let t = table(vec![row("A", "Foo. (Jan. 1, 1944)"), row("B", "Bar. (Feb. 1, 1944)")]);
    let r = compare_tables(&t, &names(&["Foo, 1944-01-01"]));
    assert_eq!(r.missing, vec![("B".to_string(), "Bar, 1944-02-01".to_string())]);
    assert!(r.is_sequential());
    assert_eq!(r.index_range(), Some((0, 0)));
    assert_eq!(r.verified_count(), 1);
}

#[test]
fn matches_are_substrings_and_indexes_are_sorted() {
    let t = table(vec![row("A", "Foo. (Jan. 1, 1944)"), row("B", "Bar. (Feb. 1, 1944)")]);
    let r = compare_tables(&t, &names(&["Bar, 1944-02-01 (copy)", "node: Foo, 1944-01-01"]));
    assert!(r.missing.is_empty());
    assert_eq!(r.indexes, vec![0, 1]);
    assert!(r.is_sequential());
    assert_eq!(r.index_range(), Some((0, 1)));
}

#[test]
fn gaps_are_all_reported() {
    let t = table(vec![
        row("A", "Foo. (Jan. 1, 1944)"),
        row("B", "Foo. (Jan. 2, 1944)"),
        row("C", "Foo. (Jan. 3, 1944)"),
    ]);
    let g = names(&["x", "Foo, 1944-01-01", "y", "Foo, 1944-01-02", "Foo, 1944-01-03"]);
    let r = compare_tables(&t, &g);
    assert_eq!(r.indexes, vec![1, 3, 4]);
    assert_eq!(r.gaps, vec![1, 3]);
    assert!(!r.is_sequential());
}

#[test]
fn linker_sets_neighbours() {
    let mut records = vec![record("one"), record("two"), record("three")];
    link_issues(&mut records);
    assert_eq!(records[0].previous_issue, "");
    assert_eq!(records[0].next_issue, "two");
    assert_eq!(records[1].previous_issue, "one");
    assert_eq!(records[1].next_issue, "three");
    assert_eq!(records[2].previous_issue, "two");
    assert_eq!(records[2].next_issue, "");
    assert_eq!(records[1].node_title, "two");
}

#[test]
fn linker_leaves_ends_as_they_were() {
    let mut records = vec![record("one"), record("two")];
    records[0].previous_issue = "kept".to_string();
    records[1].next_issue = "also kept".to_string();
    records[1].creator = "someone".to_string();
    link_issues(&mut records);
    assert_eq!(records[0].previous_issue, "kept");
    assert_eq!(records[0].next_issue, "two");
    assert_eq!(records[1].previous_issue, "one");
    assert_eq!(records[1].next_issue, "also kept");
    assert_eq!(records[1].creator, "someone");
}

#[test]
fn linker_on_one_record() {
    let mut records = vec![record("only")];
    link_issues(&mut records);
    assert_eq!(records[0].previous_issue, "");
    assert_eq!(records[0].next_issue, "");
}

#[test]
fn populate_from_matching_issue() {
    let t = table(vec![row("A", "Arizona Catering Employees. v. 9, no. 12 (Jul. 11, 1952)")]);
    let mut rec = record("Arizona Catering Employees, 1952-07-11");
    rec.volume = "old".to_string();
    assert!(populate_record(&t, &mut rec));
    assert_eq!(rec.date_digitized, "1952-07-11");
    assert_eq!(rec.volume, "9");
    assert_eq!(rec.issue, "12");
    let mut other = record("Nothing, 1952-07-11");
    assert!(!populate_record(&t, &mut other));
    assert_eq!(other.date_digitized, "");
}

#[test]
fn populate_keeps_fields_the_issue_lacks() {
    let t = table(vec![row("A", "Foo. (Jan. 1, 1950)")]);
    let mut rec = record("Foo, 1950-01-01");
    rec.volume = "3".to_string();
    assert!(populate_record(&t, &mut rec));
    assert_eq!(rec.volume, "3");
    assert_eq!(rec.issue, "");
    assert_eq!(rec.date_digitized, "1950-01-01");
}
