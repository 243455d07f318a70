//! Parsing of periodical-issue titles into structured records, and the
//! cross-referencing of those records against other tables.

pub mod text;
pub mod date;
pub mod diagnostic;
pub mod months;
pub mod date_text;
pub mod issue_data;
pub mod lookup;
pub mod reconcile;
pub mod archive;
pub mod files;

pub use archive::ArchiveRecord;
pub use date::Date;
pub use issue_data::IssueData;
pub use lookup::LookupTable;
