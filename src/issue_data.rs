//! A periodical issue as read from its catalogue title, such as
//! `Arizona Catering Employees. v. 9, no. 9 (Jul. 11, 1952)`.

use vstd::prelude::*;
use vstd::string::*;
use crate::date_text::{convert_date, convert_date_notices, convert_date_spec, DateTextError};
use crate::diagnostic::{diag_views, emit, Diagnostic, DiagnosticView};
use crate::text::{
    find, find_str, parse_u32, parse_u32_spec, replace, replace_all, rfind, rfind_str,
    strip_all, strip_prefix_all, trim, trim_end_in, trim_end_set, trim_str, CharSet,
};

verus! {

/// One issue of a periodical.
#[derive(Debug)]
pub struct IssueData {
    /// The identifier that the catalogue keys the issue by.
    pub tn: String,
    /// The periodical's title, with `_` for each space.
    pub title: String,
    pub volume: Option<u32>,
    pub issue: Option<u32>,
    /// The issue's date in partial `YYYY-MM-DD` form.
    pub date: String,
    /// A date string in the format: `d/m/y h:m`.
    pub date_loaded: String,
}

/// An `IssueData` with its texts as character sequences.
pub struct IssueDataView {
    pub tn: Seq<char>,
    pub title: Seq<char>,
    pub volume: Option<u32>,
    pub issue: Option<u32>,
    pub date: Seq<char>,
    pub date_loaded: Seq<char>,
}

impl View for IssueData {
    type V = IssueDataView;

    open spec fn view(&self) -> IssueDataView {
        IssueDataView {
            tn: self.tn@,
            title: self.title@,
            volume: self.volume,
            issue: self.issue,
            date: self.date@,
            date_loaded: self.date_loaded@,
        }
    }
}

/// `title, date` for an issue, with spaces in the title, as other tables name
/// the issue.
pub open spec fn record_title_of(d: IssueDataView) -> Seq<char> {
    replace(d.title, "_"@, " "@) + ", "@ + d.date
}

/// Why a catalogue title cannot be read.
#[derive(PartialEq, Eq, Structural, Debug, Clone, Copy)]
pub enum TitleError {
    /// The date in parentheses cannot be read.
    Date(DateTextError),
    /// No `.` ends the title.
    NoTitleSeparator,
    /// The volume and issue are separated by neither `", "` nor a space.
    VolumeIssueNotSplit,
    InvalidVolume,
    InvalidIssue,
}

/// The date text: what follows the last `" ("`, without closing parentheses.
pub open spec fn date_fragment(raw: Seq<char>) -> Seq<char> {
    let after = match rfind(raw, " ("@) {
        Some(k) => raw.skip(k + 2),
        None => raw,
    };
    trim_end_set(after, CharSet::One(')'))
}

/// What precedes the first `" ("`: the title, volume and issue.
pub open spec fn head_fragment(raw: Seq<char>) -> Seq<char> {
    match find(raw, " ("@) {
        Some(k) => raw.take(k),
        None => raw,
    }
}

/// `"v. 9 no 9"` with the space after each volume and issue prefix removed.
pub open spec fn collapse_prefixes(t: Seq<char>) -> Seq<char> {
    replace(
        replace(replace(replace(t, "no. "@, "no."@), "no "@, "no"@), "v. "@, "v."@),
        "v "@,
        "v"@,
    )
}

/// The volume text and the issue text, split at the first `", "`, or else at
/// the first space once the prefixes are collapsed.
pub open spec fn split_volume_issue_spec(vn: Seq<char>) -> Option<(Seq<char>, Seq<char>)> {
    match find(vn, ", "@) {
        Some(k) => Some((vn.take(k), vn.skip(k + 2))),
        None => {
            let t = collapse_prefixes(trim(vn));
            match find(t, " "@) {
                Some(k) => Some((t.take(k), t.skip(k + 1))),
                None => None,
            }
        },
    }
}

/// The notices that splitting the volume and issue emits.
pub open spec fn split_volume_issue_notices(vn: Seq<char>) -> Seq<DiagnosticView> {
    match find(vn, ", "@) {
        Some(_) => Seq::empty(),
        None => {
            let t = collapse_prefixes(trim(vn));
            let warn = DiagnosticView::VolumeIssueNotCommaSeparated { text: t };
            match find(t, " "@) {
                Some(k) => seq![
                    warn,
                    DiagnosticView::VolumeIssueSplitOnSpace {
                        volume: t.take(k),
                        issue: t.skip(k + 1),
                    },
                ],
                None => seq![warn],
            }
        },
    }
}

/// The digits of a volume text: without a `v. `, `v.`, `v ` or `v` prefix, and
/// without separators at the end.
pub open spec fn volume_digits(v: Seq<char>) -> Seq<char> {
    trim_end_set(
        strip_all(strip_all(strip_all(strip_all(trim(v), "v. "@), "v."@), "v "@), "v"@),
        CharSet::Separators,
    )
}

/// The digits of an issue text: without a `no. `, `no.`, `no ` or `no`
/// prefix, and without separators at the end.
pub open spec fn issue_digits(n: Seq<char>) -> Seq<char> {
    trim_end_set(
        strip_all(strip_all(strip_all(strip_all(trim(n), "no. "@), "no."@), "no "@), "no"@),
        CharSet::Separators,
    )
}

/// The issue number: the whole text, or else what precedes its first space
/// (a date that lost its opening parenthesis follows the number).
pub open spec fn issue_number_spec(t: Seq<char>) -> Option<u32> {
    match parse_u32_spec(t) {
        Some(x) => Some(x),
        None => match find(t, " "@) {
            Some(k) => parse_u32_spec(t.take(k)),
            None => None,
        },
    }
}

/// The volume and issue numbers that `vn` gives; empty text gives neither.
pub open spec fn volume_issue_spec(vn: Seq<char>) -> Result<(Option<u32>, Option<u32>), TitleError> {
    if vn.len() == 0 {
        Ok((None, None))
    } else {
        match split_volume_issue_spec(vn) {
            None => Err(TitleError::VolumeIssueNotSplit),
            Some((v, n)) => match parse_u32_spec(volume_digits(v)) {
                None => Err(TitleError::InvalidVolume),
                Some(volume) => match issue_number_spec(issue_digits(n)) {
                    None => Err(TitleError::InvalidIssue),
                    Some(issue) => Ok((Some(volume), Some(issue))),
                },
            },
        }
    }
}

/// The issue that the catalogue title `raw` describes.
#[verifier::opaque]
pub open spec fn parse_title_spec(tn: Seq<char>, raw: Seq<char>, date_loaded: Seq<char>) -> Result<
    IssueDataView,
    TitleError,
> {
    match convert_date_spec(date_fragment(raw)) {
        Err(e) => Err(TitleError::Date(e)),
        Ok(date) => {
            let head = head_fragment(raw);
            match find(head, "."@) {
                None => Err(TitleError::NoTitleSeparator),
                Some(k) => match volume_issue_spec(head.skip(k + 1)) {
                    Err(e) => Err(e),
                    Ok((volume, issue)) => Ok(
                        IssueDataView {
                            tn,
                            title: replace(head.take(k), " "@, "_"@),
                            volume,
                            issue,
                            date,
                            date_loaded,
                        },
                    ),
                },
            }
        },
    }
}

/// The notices that reading the catalogue title `raw` emits.
#[verifier::opaque]
pub open spec fn parse_title_notices(raw: Seq<char>) -> Seq<DiagnosticView> {
    let notices = convert_date_notices(date_fragment(raw));
    match convert_date_spec(date_fragment(raw)) {
        Err(_) => notices,
        Ok(_) => {
            let head = head_fragment(raw);
            match find(head, "."@) {
                Some(k) if head.skip(k + 1).len() > 0 => notices + split_volume_issue_notices(
                    head.skip(k + 1),
                ),
                _ => notices,
            }
        },
    }
}

fn collapse(t: &str) -> (r: String)
    ensures
        r@ == collapse_prefixes(t@),
{
    proof {
        reveal_strlit("no. ");
        reveal_strlit("no ");
        reveal_strlit("v. ");
        reveal_strlit("v ");
    }
    let a = replace_all(t, "no. ", "no.");
    let b = replace_all(a.as_str(), "no ", "no");
    let c = replace_all(b.as_str(), "v. ", "v.");
    replace_all(c.as_str(), "v ", "v")
}

fn split_volume_issue(vn: &str, log: &mut Vec<Diagnostic>) -> (r: Option<(String, String)>)
    ensures
        match r {
            Some((v, n)) => split_volume_issue_spec(vn@) == Some((v@, n@)),
            None => split_volume_issue_spec(vn@) is None,
        },
        diag_views(final(log)@) == diag_views(old(log)@) + split_volume_issue_notices(vn@),
{
    proof {
        reveal_strlit(", ");
        reveal_strlit(" ");
    }
    match find_str(vn, ", ", 0) {
        Some(k) => {
            let len = vn.unicode_len();
            let v = String::from_str(vn.substring_char(0, k));
            let n = String::from_str(vn.substring_char(k + 2, len));
            assert(vn@.subrange(0, k as int) =~= vn@.take(k as int));
            assert(vn@.subrange(k + 2, len as int) =~= vn@.skip(k + 2));
            assert(diag_views(log@) =~= diag_views(old(log)@) + split_volume_issue_notices(vn@));
            Some((v, n))
        },
        None => {
            let t = collapse(trim_str(vn));
            emit(log, Diagnostic::VolumeIssueNotCommaSeparated { text: t.clone() });
            let ts = t.as_str();
            match find_str(ts, " ", 0) {
                Some(k) => {
                    let len = ts.unicode_len();
                    let v = String::from_str(ts.substring_char(0, k));
                    let n = String::from_str(ts.substring_char(k + 1, len));
                    assert(ts@.subrange(0, k as int) =~= ts@.take(k as int));
                    assert(ts@.subrange(k + 1, len as int) =~= ts@.skip(k + 1));
                    emit(
                        log,
                        Diagnostic::VolumeIssueSplitOnSpace { volume: v.clone(), issue: n.clone() },
                    );
                    assert(diag_views(log@) =~= diag_views(old(log)@) + split_volume_issue_notices(
                        vn@,
                    ));
                    Some((v, n))
                },
                None => {
                    assert(diag_views(log@) =~= diag_views(old(log)@) + split_volume_issue_notices(
                        vn@,
                    ));
                    None
                },
            }
        },
    }
}


fn volume_text(v: &str) -> (r: &str)
    ensures
        r@ == volume_digits(v@),
{
    proof {
        reveal_strlit("v. ");
        reveal_strlit("v.");
        reveal_strlit("v ");
        reveal_strlit("v");
    }
    let t = trim_str(v);
    let t = strip_prefix_all(t, "v. ");
    let t = strip_prefix_all(t, "v.");
    let t = strip_prefix_all(t, "v ");
    let t = strip_prefix_all(t, "v");
    trim_end_in(t, &CharSet::Separators)
}

fn issue_text(n: &str) -> (r: &str)
    ensures
        r@ == issue_digits(n@),
{
    proof {
        reveal_strlit("no. ");
        reveal_strlit("no.");
        reveal_strlit("no ");
        reveal_strlit("no");
    }
    let t = trim_str(n);
    let t = strip_prefix_all(t, "no. ");
    let t = strip_prefix_all(t, "no.");
    let t = strip_prefix_all(t, "no ");
    let t = strip_prefix_all(t, "no");
    trim_end_in(t, &CharSet::Separators)
}

fn issue_number(t: &str) -> (r: Option<u32>)
    ensures
        r == issue_number_spec(t@),
{
    match parse_u32(t) {
        Some(x) => Some(x),
        None => match find_str(t, " ", 0) {
            Some(k) => {
                assert(t@.subrange(0, k as int) =~= t@.take(k as int));
                parse_u32(t.substring_char(0, k))
            },
            None => None,
        },
    }
}

fn volume_issue(vn: &str, log: &mut Vec<Diagnostic>) -> (r: Result<(Option<u32>, Option<u32>), TitleError>)
    ensures
        r == volume_issue_spec(vn@),
        diag_views(final(log)@) == diag_views(old(log)@) + (if vn@.len() > 0 {
            split_volume_issue_notices(vn@)
        } else {
            Seq::empty()
        }),
{
    if vn.unicode_len() == 0 {
        assert(diag_views(log@) =~= diag_views(old(log)@) + Seq::empty());
        return Ok((None, None));
    }
    let (v, n) = match split_volume_issue(vn, log) {
        Some(p) => p,
        None => return Err(TitleError::VolumeIssueNotSplit),
    };
    let volume = match parse_u32(volume_text(v.as_str())) {
        Some(x) => x,
        None => return Err(TitleError::InvalidVolume),
    };
    let issue = match issue_number(issue_text(n.as_str())) {
        Some(x) => x,
        None => return Err(TitleError::InvalidIssue),
    };
    Ok((Some(volume), Some(issue)))
}

impl IssueData {
    /// Reads an issue from its catalogue title.
    ///
    /// The date is what follows the last `" ("`. Before the first `" ("`
    /// stand the title, up to the first `.`, and then the volume and issue,
    /// if any. Those are split at `", "`; where that is missing they are split
    /// at the first space once the prefixes are collapsed, and `log` gets a
    /// warning and the two halves. An issue text that is not a number is cut
    /// at its first space. Every notice of the date's own reading goes to
    /// `log` first.
    pub fn try_new(tn: String, raw_title: String, date_loaded: String, log: &mut Vec<Diagnostic>) -> (r:
        Result<IssueData, TitleError>)
        ensures
            match r {
                Ok(d) => parse_title_spec(tn@, raw_title@, date_loaded@) == Ok::<
                    IssueDataView,
                    TitleError,
                >(d@),
                Err(e) => parse_title_spec(tn@, raw_title@, date_loaded@) == Err::<
                    IssueDataView,
                    TitleError,
                >(e),
            },
            diag_views(final(log)@) == diag_views(old(log)@) + parse_title_notices(raw_title@),
            r matches Ok(d) ==> d@.tn == tn@,
            r matches Ok(d) ==> (d.volume is Some <==> d.issue is Some),
    {
        proof {
            reveal(parse_title_spec);
            reveal(parse_title_notices);
            reveal_strlit(" (");
            reveal_strlit(".");
            reveal_strlit(" ");
        }
        let raw = raw_title.as_str();
        let len = raw.unicode_len();
        let after = match rfind_str(raw, " (") {
            Some(k) => raw.substring_char(k + 2, len),
            None => raw,
        };
        assert(after@ =~= match rfind(raw@, " ("@) {
            Some(k) => raw@.skip(k + 2),
            None => raw@,
        });
        let date_src = trim_end_in(after, &CharSet::One(')'));
        let date = match convert_date(date_src, log) {
            Ok(d) => d,
            Err(e) => return Err(TitleError::Date(e)),
        };
        let head = match find_str(raw, " (", 0) {
            Some(k) => raw.substring_char(0, k),
            None => raw,
        };
        assert(head@ =~= head_fragment(raw@));
        let head_len = head.unicode_len();
        let (title_part, vn, k) = match find_str(head, ".", 0) {
            Some(k) => (head.substring_char(0, k), head.substring_char(k + 1, head_len), k),
            None => {
                assert(diag_views(log@) =~= diag_views(old(log)@) + parse_title_notices(
                    raw_title@,
                ));
                return Err(TitleError::NoTitleSeparator);
            },
        };
        assert(title_part@ =~= head@.take(k as int));
        assert(vn@ =~= head@.skip(k + 1));
        let title = replace_all(title_part, " ", "_");
        let r = volume_issue(vn, log);
        assert(diag_views(log@) =~= diag_views(old(log)@) + parse_title_notices(raw_title@));
        let (volume, issue) = match r {
            Ok(p) => p,
            Err(e) => return Err(e),
        };
        Ok(IssueData { tn, title, volume, issue, date, date_loaded })
    }

    /// Reads an issue from a catalogue title that is known to be well formed
    /// (see `try_new`).
    pub fn new(tn: String, raw_title: String, date_loaded: String) -> (r: Self)
        requires
            parse_title_spec(tn@, raw_title@, date_loaded@) is Ok,
        ensures
            parse_title_spec(tn@, raw_title@, date_loaded@) == Ok::<IssueDataView, TitleError>(r@),
    {
        let mut log: Vec<Diagnostic> = Vec::new();
        match IssueData::try_new(tn, raw_title, date_loaded, &mut log) {
            Ok(d) => d,
            Err(_) => unreached(),
        }
    }

    /// `title_date`, for a file name.
    pub open spec fn spec_formatted_title(&self) -> Seq<char> {
        self.title@ + "_"@ + self.date@
    }

    /// `title, date`, with spaces in the title, as other tables name the issue.
    pub open spec fn spec_record_title(&self) -> Seq<char> {
        record_title_of(self@)
    }

    /// Returns a formatted title for the issue in the format: `title_date`.
    pub fn formatted_title(&self) -> (r: String)
        ensures
            r@ == self.spec_formatted_title(),
    {
        String::from_str(self.title.as_str()).concat("_").concat(self.date.as_str())
    }

    /// Returns a formatted title for the issue in the format: `title, date`.
    pub fn record_title(&self) -> (r: String)
        ensures
            r@ == self.spec_record_title(),
    {
        proof {
            reveal_strlit("_");
        }
        replace_all(self.title.as_str(), "_", " ").concat(", ").concat(self.date.as_str())
    }
}

} // verus!
