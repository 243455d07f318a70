//! A row of the archive's metadata table, and the steps that fill it in.

use vstd::prelude::*;
use crate::issue_data::IssueData;
use crate::lookup::{last_with_record_title, LookupTable};
use crate::text::{decimal, push_decimal};

verus! {

/// A row of the archive's metadata table; every field is text.
pub struct ArchiveRecord {
    pub node_title: String,
    pub assets: String,
    pub attachments: String,
    pub redact: String,
    pub part_of: String,
    pub previous_issue: String,
    pub next_issue: String,
    pub creator: String,
    pub contributor: String,
    pub publisher: String,
    pub volume: String,
    pub issue: String,
    pub description: String,
    pub subject: String,
    pub date_original: String,
    pub date_range: String,
    pub type_: String,
    pub original_format: String,
    pub language: String,
    pub contributing_institution: String,
    pub collection: String,
    pub subcollection: String,
    pub rights_statement: String,
    pub state_agency: String,
    pub state_sub_agency: String,
    pub federal_legislative_branch_agency: String,
    pub federal_executive_department: String,
    pub federal_executive_department_sub_agency_or_bureau: String,
    pub federal_independent_agency: String,
    pub federal_board_commission_or_committee: String,
    pub federal_quasi_official_agency: String,
    pub federal_court_or_judicial_agency: String,
    pub city_or_town: String,
    pub geographic_feature: String,
    pub tribal_homeland: String,
    pub road: String,
    pub county: String,
    pub state: String,
    pub country: String,
    pub agency: String,
    pub event: String,
    pub oral_history: String,
    pub person: String,
    pub place: String,
    pub topic: String,
    pub acquisition_note: String,
    pub call_number: String,
    pub vertical_file: String,
    pub oclc_number: String,
    pub date_digitized: String,
    pub digital_format: String,
    pub file_size: String,
    pub digitizing_institution: String,
    pub date_ingested: String,
    pub batch_number: String,
    pub admin_notes: String,
}

/// Links each record to its neighbours, in the order given: the record at
/// position `i` gets the node title of the one at `i - 1` as its previous
/// issue and that of the one at `i + 1` as its next issue. The first keeps
/// its previous issue and the last its next issue; nothing else changes.
pub fn link_issues(records: &mut Vec<ArchiveRecord>)
    ensures
        final(records)@.len() == old(records)@.len(),
        forall|i: int|
            0 <= i < old(records)@.len() ==> #[trigger] final(records)@[i] == (ArchiveRecord {
                previous_issue: if i > 0 {
                    old(records)@[i - 1].node_title
                } else {
                    old(records)@[i].previous_issue
                },
                next_issue: if i + 1 < old(records)@.len() {
                    old(records)@[i + 1].node_title
                } else {
                    old(records)@[i].next_issue
                },
                ..old(records)@[i]
            }),
{
    let n = records.len();
    let mut titles: Vec<String> = Vec::new();
    let mut j: usize = 0;
    while j < n
        invariant
            n == records@.len(),
            records@ == old(records)@,
            j <= n,
            titles@.len() == j,
            forall|k: int| 0 <= k < j ==> #[trigger] titles@[k] == records@[k].node_title,
        decreases n - j,
    {
        titles.push(records[j].node_title.clone());
        j += 1;
    }
    let mut i: usize = 0;
    while i < n
        invariant
            n == records@.len(),
            n == old(records)@.len(),
            i <= n,
            titles@.len() == n,
            forall|k: int| 0 <= k < n ==> #[trigger] titles@[k] == old(records)@[k].node_title,
            forall|k: int| i <= k < n ==> #[trigger] records@[k] == old(records)@[k],
            forall|k: int|
                0 <= k < i ==> #[trigger] records@[k] == (ArchiveRecord {
                    previous_issue: if k > 0 {
                        old(records)@[k - 1].node_title
                    } else {
                        old(records)@[k].previous_issue
                    },
                    next_issue: if k + 1 < n {
                        old(records)@[k + 1].node_title
                    } else {
                        old(records)@[k].next_issue
                    },
                    ..old(records)@[k]
                }),
        decreases n - i,
    {
        let mut r = records.remove(i);
        if i > 0 {
            r.previous_issue = titles[i - 1].clone();
        }
        if i + 1 < n {
            r.next_issue = titles[i + 1].clone();
        }
        records.insert(i, r);
        i += 1;
    }
}


/// Fills `record` in from the catalogue issue that its node title names (the
/// last one, in identifier order, whose `title, date` it is): the issue's
/// date goes into `date_digitized`, and its volume and issue, where known, as
/// decimal numbers. Returns whether such an issue was found; where none was,
/// the record stays as it was. Nothing else changes.
pub fn populate_record(table: &LookupTable, record: &mut ArchiveRecord) -> (found: bool)
    ensures
        match last_with_record_title(table@, old(record).node_title@, table@.len() as int) {
            None => !found && *final(record) == *old(record),
            Some(i) => {
                let d = table@[i];
                &&& found
                &&& final(record).date_digitized@ == d.date
                &&& match d.volume {
                    Some(v) => final(record).volume@ == decimal(v as nat),
                    None => final(record).volume == old(record).volume,
                }
                &&& match d.issue {
                    Some(n) => final(record).issue@ == decimal(n as nat),
                    None => final(record).issue == old(record).issue,
                }
                &&& *final(record) == (ArchiveRecord {
                    date_digitized: final(record).date_digitized,
                    volume: final(record).volume,
                    issue: final(record).issue,
                    ..*old(record)
                })
            },
        },
{
    match table.position_by_record_title(record.node_title.as_str()) {
        None => false,
        Some(i) => {
            let d: &IssueData = table.entry(i);
            record.date_digitized = d.date.clone();
            match d.volume {
                Some(v) => {
                    let mut t = String::new();
                    push_decimal(&mut t, v as u64);
                    record.volume = t;
                },
                None => {},
            }
            match d.issue {
                Some(n) => {
                    let mut t = String::new();
                    push_decimal(&mut t, n as u64);
                    record.issue = t;
                },
                None => {},
            }
            true
        },
    }
}

} // verus!
