use bulk_format::date::{Date, DateError};
use bulk_format::diagnostic::Diagnostic;
use bulk_format::files::{date_from_file_name, group_dir_name, numbered_target, renamed_file_name, RenameTarget};
use bulk_format::lookup::{build_lookup_table, LookupRow};

#[test]
fn date_at_end_of_file_name() {
    assert_eq!(
        date_from_file_name("Arizona_Catering_Employees_1944-08-06.pdf"),
        Ok(Date { year: 1944, month: Some(8), day: Some(6) })
    );
    assert_eq!(date_from_file_name("Foo_1944.pdf"), Ok(Date { year: 1944, month: None, day: None }));
    assert_eq!(date_from_file_name("Foo_bar.pdf"), Err(DateError::InvalidYear));
}

#[test]
fn group_directory_names() {
    let dates = vec![
        Date { year: 1950, month: Some(1), day: None },
        Date { year: 1944, month: Some(8), day: Some(6) },
        Date { year: 1947, month: None, day: None },
    ];
    assert_eq!(group_dir_name("out", 3, &dates), "out/3_1944-1950");
    assert_eq!(group_dir_name("out", 12, &Vec::new()), "out/12");
}

#[test]
fn rename_after_title() {
    let rows = vec![LookupRow {
        tn: "t123".to_string(),
        title: "Foo Bar. v. 1, no. 2 (Aug. 6, 1944)".to_string(),
        date_loaded: "x".to_string(),
    }];
    let mut log: Vec<Diagnostic> = Vec::new();
    let table = build_lookup_table(&rows, &mut log).unwrap();
    assert_eq!(
        renamed_file_name(&table, "t123.pdf"),
        RenameTarget::Renamed("Foo_Bar_1944-08-06.pdf".to_string())
    );
    assert_eq!(renamed_file_name(&table, "t999.pdf"), RenameTarget::NotInTable);
    assert_eq!(renamed_file_name(&table, "t123"), RenameTarget::NoExtension);
}

#[test]
fn numbered_targets() {
    let (name, target) = numbered_target("dir", "file_linked", "csv", 1);
    assert_eq!(name, "file_linked_1");
    assert_eq!(target, "dir/file_linked_1.csv");
    let (name, target) = numbered_target("dir", &name, "csv", 2);
    assert_eq!(name, "file_linked_1_2");
    assert_eq!(target, "dir/file_linked_1_2.csv");
}
