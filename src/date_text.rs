//! Turns a free-text date such as `Aug. 6, 1944` into `1944-08-06`.

use vstd::prelude::*;
use vstd::string::*;
use crate::diagnostic::{diag_views, emit, Diagnostic, DiagnosticView};
use crate::months::{find_month_prefix, month_index, month_number, month_prefix, try_parse_month};
use crate::text::{split_char, split_on_char, trim_end_in, trim_end_set, views, CharSet};

verus! {

/// Why a date text cannot be read.
#[derive(PartialEq, Eq, Structural, Debug, Clone, Copy)]
pub enum DateTextError {
    /// The text does not have three parts, and no part starts with a month.
    NoMonth,
    /// The month part is not a month abbreviation.
    UnknownMonth,
    /// After dropping the parts before the month, more than three are left.
    WrongPartCount,
}

/// The first part at or after `i` that starts with a month abbreviation, with
/// that month.
pub open spec fn first_month_part(parts: Seq<Seq<char>>, i: int) -> Option<(int, int)>
    decreases parts.len() - i,
{
    if i < 0 || i >= parts.len() {
        None
    } else {
        match month_prefix(parts[i]) {
            Some(m) => Some((i, m)),
            None => first_month_part(parts, i + 1),
        }
    }
}

/// The parts that remain once the parts before the month are dropped; `None`
/// when the text can not be recovered.
pub open spec fn recovered_parts(parts: Seq<Seq<char>>) -> Option<Seq<Seq<char>>> {
    if parts.len() == 3 {
        Some(parts)
    } else {
        match first_month_part(parts, 0) {
            Some((i, _)) => Some(parts.skip(i)),
            None => if parts.len() == 1 {
                Some(parts)
            } else {
                None
            },
        }
    }
}

/// The notices that reading `date` emits.
pub open spec fn convert_date_notices(date: Seq<char>) -> Seq<DiagnosticView> {
    let parts = split_char(date, ' ');
    if parts.len() == 3 {
        Seq::empty()
    } else {
        let warn = DiagnosticView::DateNotThreeParts { date: date, parts: parts.len() };
        match first_month_part(parts, 0) {
            Some((i, m)) => seq![
                warn,
                DiagnosticView::MonthFound { month: (m + 1) as nat, part: i as nat },
            ],
            None => seq![warn],
        }
    }
}

/// A day of one ASCII character gets a leading zero.
pub open spec fn pad_day(d: Seq<char>) -> Seq<char> {
    if d.len() == 1 && (d[0] as u32) < 128 {
        seq!['0'] + d
    } else {
        d
    }
}

/// What reading `date` gives: `YYYY-MM-DD` from `Mon. D, YYYY`, `YYYY-MM`
/// from `Mon. YYYY`, and a single part as it stands.
pub open spec fn convert_date_spec(date: Seq<char>) -> Result<Seq<char>, DateTextError> {
    match recovered_parts(split_char(date, ' ')) {
        None => Err(DateTextError::NoMonth),
        Some(p) => if p.len() == 3 {
            match month_index(trim_end_set(p[0], CharSet::One('.'))) {
                None => Err(DateTextError::UnknownMonth),
                Some(m) => Ok(
                    p[2] + seq!['-'] + month_number(m) + seq!['-'] + pad_day(
                        trim_end_set(p[1], CharSet::One(',')),
                    ),
                ),
            }
        } else if p.len() == 2 {
            match month_index(trim_end_set(p[0], CharSet::One('.'))) {
                None => Err(DateTextError::UnknownMonth),
                Some(m) => Ok(p[1] + seq!['-'] + month_number(m)),
            }
        } else if p.len() == 1 {
            Ok(p[0])
        } else {
            Err(DateTextError::WrongPartCount)
        },
    }
}

/// The text of a result, as a character sequence.
pub open spec fn text_result<E>(r: Result<String, E>) -> Result<Seq<char>, E> {
    match r {
        Ok(s) => Ok(s@),
        Err(e) => Err(e),
    }
}

fn find_month_part(parts: &Vec<&str>) -> (r: Option<(usize, usize)>)
    ensures
        match r {
            Some((i, m)) => first_month_part(views(parts@), 0) == Some((i as int, m as int))
                && i < parts@.len() && m < 12,
            None => first_month_part(views(parts@), 0) is None,
        },
{
    let mut i: usize = 0;
    while i < parts.len()
        invariant
            i <= parts@.len(),
            first_month_part(views(parts@), 0) == first_month_part(views(parts@), i as int),
        decreases parts@.len() - i,
    {
        assert(views(parts@)[i as int] == parts@[i as int]@);
        match find_month_prefix(parts[i]) {
            Some(m) => {
                return Some((i, m));
            },
            None => {},
        }
        i += 1;
    }
    None
}

fn pad(d: &str) -> (r: String)
    ensures
        r@ == pad_day(d@),
{
    if d.unicode_len() == 1 && (d.get_char(0) as u32) < 128 {
        let zero = "0";
        proof {
            reveal_strlit("0");
        }
        String::from_str(zero).concat(d)
    } else {
        String::from_str(d)
    }
}

/// Converts a date such as `Aug. 6, 1944` to the partial `YYYY-MM-DD` form
/// `1944-08-06`; `Sep. 1944` gives `1944-09` and `1944` stays `1944`.
///
/// A text that does not have three parts is searched for the first part that
/// starts with a month, and the parts before it are dropped (a title whose
/// date lost its opening parenthesis brings extra words along). `log` gets a
/// warning whenever that search runs, and a second notice naming the part
/// where it found a month.
pub fn convert_date(date: &str, log: &mut Vec<Diagnostic>) -> (r: Result<String, DateTextError>)
    ensures
        text_result(r) == convert_date_spec(date@),
        diag_views(final(log)@) == diag_views(old(log)@) + convert_date_notices(date@),
{
    let parts = split_on_char(date, ' ');
    let ghost pv = split_char(date@, ' ');
    assert(views(parts@) == pv);
    let mut start: usize = 0;
    if parts.len() != 3 {
        emit(log, Diagnostic::DateNotThreeParts { date: String::from_str(date), parts: parts.len() });
        match find_month_part(&parts) {
            Some((i, m)) => {
                emit(log, Diagnostic::MonthFound { month: m + 1, part: i });
                start = i;
            },
            None => {
                assert(diag_views(log@) =~= diag_views(old(log)@) + convert_date_notices(date@));
                if parts.len() != 1 {
                    return Err(DateTextError::NoMonth);
                }
            },
        }
    }
    assert(diag_views(log@) =~= diag_views(old(log)@) + convert_date_notices(date@));
    let ghost p = recovered_parts(pv);
    assert(p matches Some(q) && q =~= pv.skip(start as int));
    let count = parts.len() - start;
    if count == 3 {
        assert(parts@[start as int]@ == pv[start as int]);
        assert(parts@[start + 1]@ == pv[start + 1]);
        assert(parts@[start + 2]@ == pv[start + 2]);
        let month = trim_end_in(parts[start], &CharSet::One('.'));
        let day = trim_end_in(parts[start + 1], &CharSet::One(','));
        let year = parts[start + 2];
        let month = match try_parse_month(month) {
            Some(m) => m,
            None => return Err(DateTextError::UnknownMonth),
        };
        let dash = "-";
        proof {
            reveal_strlit("-");
        }
        let padded = pad(day);
        let out = String::from_str(year).concat(dash).concat(month.as_str()).concat(dash).concat(
            padded.as_str(),
        );
        proof {
            let q = pv.skip(start as int);
            assert(q[0] == pv[start as int] && q[1] == pv[start + 1] && q[2] == pv[start + 2]);
            assert(dash@ == seq!['-']);
            assert(out@ == year@ + seq!['-'] + month@ + seq!['-'] + padded@);
        }
        Ok(out)
    } else if count == 2 {
        assert(parts@[start as int]@ == pv[start as int]);
        assert(parts@[start + 1]@ == pv[start + 1]);
        let month = trim_end_in(parts[start], &CharSet::One('.'));
        let year = parts[start + 1];
        let month = match try_parse_month(month) {
            Some(m) => m,
            None => return Err(DateTextError::UnknownMonth),
        };
        let dash = "-";
        proof {
            reveal_strlit("-");
        }
        let out = String::from_str(year).concat(dash).concat(month.as_str());
        proof {
            let q = pv.skip(start as int);
            assert(q[0] == pv[start as int] && q[1] == pv[start + 1]);
            assert(dash@ == seq!['-']);
        }
        Ok(out)
    } else if count == 1 {
        assert(parts@[start as int]@ == pv[start as int]);
        let out = String::from_str(parts[start]);
        Ok(out)
    } else {
        Err(DateTextError::WrongPartCount)
    }
}

} // verus!
