//! Names of files and directories: renaming issues after their titles,
//! grouping dated files, and picking a target name that is free.

use vstd::prelude::*;
use vstd::string::*;
use crate::date::{Date, DateError};
use crate::lookup::LookupTable;
use crate::text::{
    decimal, find, find_str, push_decimal, push_signed_decimal, signed_decimal, split_char,
    split_on_char, lemma_split_char_len,
};

verus! {

/// The date at the end of a file name such as `Title_1944-08-06.pdf`: what
/// follows the last `_`, up to its first `.`.
pub open spec fn file_name_date_text(name: Seq<char>) -> Seq<char> {
    split_char(split_char(name, '_').last(), '.')[0]
}

/// Reads the date at the end of a file name such as `Title_1944-08-06.pdf`.
pub fn date_from_file_name(name: &str) -> (r: Result<Date, DateError>)
    ensures
        r == Date::spec_parse(file_name_date_text(name@)),
{
    proof {
        lemma_split_char_len(name@, '_');
    }
    let parts = split_on_char(name, '_');
    let last = parts[parts.len() - 1];
    assert(last@ == split_char(name@, '_').last());
    proof {
        lemma_split_char_len(last@, '.');
    }
    let pieces = split_on_char(last, '.');
    assert(pieces@[0]@ == split_char(last@, '.')[0]);
    Date::parse(pieces[0])
}

/// The least year among the first `n` dates.
pub open spec fn min_year(dates: Seq<Date>, n: int) -> int
    decreases n,
{
    if n <= 1 {
        dates[0].year as int
    } else {
        let m = min_year(dates, n - 1);
        if (dates[n - 1].year as int) < m {
            dates[n - 1].year as int
        } else {
            m
        }
    }
}

/// The greatest year among the first `n` dates.
pub open spec fn max_year(dates: Seq<Date>, n: int) -> int
    decreases n,
{
    if n <= 1 {
        dates[0].year as int
    } else {
        let m = max_year(dates, n - 1);
        if (dates[n - 1].year as int) > m {
            dates[n - 1].year as int
        } else {
            m
        }
    }
}

/// `directory/index`, followed by `_first-last` with the years of the
/// earliest and the latest date when there are dates.
pub open spec fn group_dir_spec(directory: Seq<char>, index: nat, dates: Seq<Date>) -> Seq<char> {
    let base = directory + seq!['/'] + decimal(index);
    if dates.len() == 0 {
        base
    } else {
        base + seq!['_'] + signed_decimal(min_year(dates, dates.len() as int)) + seq!['-']
            + signed_decimal(max_year(dates, dates.len() as int))
    }
}

/// The directory for the group of files at `index` whose dates are `dates`.
pub fn group_dir_name(directory: &str, index: usize, dates: &Vec<Date>) -> (r: String)
    ensures
        r@ == group_dir_spec(directory@, index as nat, dates@),
{
    proof {
        reveal_strlit("/");
        reveal_strlit("_");
        reveal_strlit("-");
    }
    let mut out = String::from_str(directory);
    out.append("/");
    push_decimal(&mut out, index as u64);
    let n = dates.len();
    if n == 0 {
        return out;
    }
    let mut lo = dates[0].year;
    let mut hi = dates[0].year;
    let mut i: usize = 1;
    while i < n
        invariant
            n == dates@.len(),
            1 <= i <= n,
            lo as int == min_year(dates@, i as int),
            hi as int == max_year(dates@, i as int),
        decreases n - i,
    {
        let y = dates[i].year;
        if y < lo {
            lo = y;
        }
        if y > hi {
            hi = y;
        }
        i += 1;
    }
    out.append("_");
    push_signed_decimal(&mut out, lo);
    out.append("-");
    push_signed_decimal(&mut out, hi);
    out
}

/// Where a file named after an identifier goes.
#[derive(PartialEq, Eq, Debug)]
pub enum RenameTarget {
    /// The name has no `.` between identifier and extension.
    NoExtension,
    /// No issue of the table has the identifier.
    NotInTable,
    /// The issue's `title_date`, with the file's extension.
    Renamed(String),
}

/// The new name of a file named `tn.ext`: the issue `tn`'s `title_date.ext`.
pub fn renamed_file_name(table: &LookupTable, file_name: &str) -> (r: RenameTarget)
    ensures
        match find(file_name@, "."@) {
            None => r is NoExtension,
            Some(k) => {
                let tn = file_name@.take(k);
                let ext = file_name@.skip(k + 1);
                match r {
                    RenameTarget::NotInTable => forall|i: int|
                        0 <= i < table@.len() ==> #[trigger] table@[i].tn != tn,
                    RenameTarget::Renamed(s) => exists|i: int|
                        0 <= i < table@.len() && #[trigger] table@[i].tn == tn && s@
                            == table@[i].title + "_"@ + table@[i].date + "."@ + ext,
                    RenameTarget::NoExtension => false,
                }
            },
        },
{
    proof {
        reveal_strlit(".");
    }
    let k = match find_str(file_name, ".", 0) {
        Some(k) => k,
        None => return RenameTarget::NoExtension,
    };
    let n = file_name.unicode_len();
    let tn = file_name.substring_char(0, k);
    let ext = file_name.substring_char(k + 1, n);
    assert(tn@ =~= file_name@.take(k as int));
    assert(ext@ =~= file_name@.skip(k + 1));
    match table.position(tn) {
        None => RenameTarget::NotInTable,
        Some(i) => {
            let d = table.entry(i);
            let t = d.formatted_title().concat(".").concat(ext);
            assert(table@[i as int].tn == tn@);
            RenameTarget::Renamed(t)
        },
    }
}

/// The next name to try for a file that must not overwrite another: the stem
/// gets `_index`, and the target is `directory/stem_index.extension`.
/// Returns the new stem and the new target.
pub fn numbered_target(directory: &str, stem: &str, extension: &str, index: u64) -> (r: (
    String,
    String,
))
    ensures
        r.0@ == stem@ + "_"@ + decimal(index as nat),
        r.1@ == directory@ + "/"@ + r.0@ + "."@ + extension@,
{
    let mut name = String::from_str(stem);
    name.append("_");
    push_decimal(&mut name, index);
    let target = String::from_str(directory).concat("/").concat(name.as_str()).concat(".").concat(
        extension,
    );
    (name, target)
}

} // verus!
