//! Cross-checks the catalogue against a generated list of issue titles.

use vstd::prelude::*;
use crate::issue_data::{record_title_of, IssueData, IssueDataView};
use crate::lookup::LookupTable;
use crate::text::{contains, contains_str};

verus! {

/// How many issues among the first `n` of `s` carry the date `date`.
pub open spec fn date_count(s: Seq<IssueDataView>, date: Seq<char>, n: int) -> nat
    decreases n,
{
    if n <= 0 {
        0
    } else {
        date_count(s, date, n - 1) + if s[n - 1].date == date {
            1nat
        } else {
            0nat
        }
    }
}

/// Identifier and date of each of the first `n` issues whose date another
/// issue of `s` shares.
pub open spec fn duplicates_spec(s: Seq<IssueDataView>, n: int) -> Seq<(Seq<char>, Seq<char>)>
    decreases n,
{
    if n <= 0 {
        Seq::empty()
    } else if date_count(s, s[n - 1].date, s.len() as int) > 1 {
        duplicates_spec(s, n - 1).push((s[n - 1].tn, s[n - 1].date))
    } else {
        duplicates_spec(s, n - 1)
    }
}

/// The first position at or after `i` of a generated title that contains `t`.
pub open spec fn first_containing(g: Seq<Seq<char>>, t: Seq<char>, i: int) -> Option<int>
    decreases g.len() - i,
{
    if i < 0 || i >= g.len() {
        None
    } else if contains(g[i], t) {
        Some(i)
    } else {
        first_containing(g, t, i + 1)
    }
}

/// Identifier and title of each of the first `n` issues that no generated
/// title contains.
pub open spec fn missing_spec(s: Seq<IssueDataView>, g: Seq<Seq<char>>, n: int) -> Seq<
    (Seq<char>, Seq<char>),
>
    decreases n,
{
    if n <= 0 {
        Seq::empty()
    } else {
        let d = s[n - 1];
        match first_containing(g, record_title_of(d), 0) {
            None => missing_spec(s, g, n - 1).push((d.tn, record_title_of(d))),
            Some(_) => missing_spec(s, g, n - 1),
        }
    }
}

/// For each of the first `n` issues that a generated title contains, the
/// position of the first such title.
pub open spec fn matched_spec(s: Seq<IssueDataView>, g: Seq<Seq<char>>, n: int) -> Seq<usize>
    decreases n,
{
    if n <= 0 {
        Seq::empty()
    } else {
        match first_containing(g, record_title_of(s[n - 1]), 0) {
            None => matched_spec(s, g, n - 1),
            Some(i) => matched_spec(s, g, n - 1).push(i as usize),
        }
    }
}

/// The value that position `k` of a gap-free run from 0 would hold.
pub open spec fn expected_at(idx: Seq<usize>, k: int) -> int {
    if k == 0 {
        0
    } else {
        idx[k - 1] + 1
    }
}

/// Each of the first `n` indexes that does not follow the one before it
/// (the first must be 0).
pub open spec fn gaps_spec(idx: Seq<usize>, n: int) -> Seq<usize>
    decreases n,
{
    if n <= 0 {
        Seq::empty()
    } else if idx[n - 1] as int != expected_at(idx, n - 1) {
        gaps_spec(idx, n - 1).push(idx[n - 1])
    } else {
        gaps_spec(idx, n - 1)
    }
}

/// `s` is in ascending order.
pub open spec fn sorted(s: Seq<usize>) -> bool {
    forall|i: int, j: int| 0 <= i < j < s.len() ==> s[i] <= s[j]
}

/// The character sequences of a list of strings.
pub open spec fn string_views(v: Seq<String>) -> Seq<Seq<char>> {
    v.map_values(|x: String| x@)
}

/// The character sequences of a list of string pairs.
pub open spec fn pair_views(v: Seq<(String, String)>) -> Seq<(Seq<char>, Seq<char>)> {
    v.map_values(|p: (String, String)| (p.0@, p.1@))
}

/// Relies on `slice::sort`: afterwards the elements are ascending and are
/// the elements that were there before.
#[verifier::external_body]
fn sort_ascending(v: &mut Vec<usize>)
    ensures
        final(v)@.to_multiset() == old(v)@.to_multiset(),
        sorted(final(v)@),
{
    v.sort();
}

/// What cross-checking finds.
pub struct Report {
    /// Identifier and date of each issue whose date another issue shares.
    pub duplicates: Vec<(String, String)>,
    /// Identifier and expected title of each issue that no generated title holds.
    pub missing: Vec<(String, String)>,
    /// The positions of the generated titles that matched, ascending.
    pub indexes: Vec<usize>,
    /// The indexes that break the gap-free run from 0.
    pub gaps: Vec<usize>,
}

impl Report {
    /// The matched positions form a gap-free run from 0.
    pub fn is_sequential(&self) -> (r: bool)
        ensures
            r == (self.gaps@.len() == 0),
    {
        self.gaps.len() == 0
    }

    /// The first and the last matched position, if any matched.
    pub fn index_range(&self) -> (r: Option<(usize, usize)>)
        ensures
            self.indexes@.len() == 0 ==> r is None,
            self.indexes@.len() > 0 ==> r == Some(
                (self.indexes@[0], self.indexes@[self.indexes@.len() - 1]),
            ),
    {
        let n = self.indexes.len();
        if n == 0 {
            None
        } else {
            Some((self.indexes[0], self.indexes[n - 1]))
        }
    }

    /// How many issues a generated title holds.
    pub fn verified_count(&self) -> (r: usize)
        ensures
            r == self.indexes@.len(),
    {
        self.indexes.len()
    }
}

fn count_date(table: &LookupTable, date: &String) -> (r: usize)
    ensures
        r == date_count(table@, date@, table@.len() as int),
{
    let n = table.len();
    let mut count: usize = 0;
    let mut i: usize = 0;
    while i < n
        invariant
            n == table@.len(),
            i <= n,
            count == date_count(table@, date@, i as int),
            count <= i,
        decreases n - i,
    {
        let d = table.entry(i);
        if crate::text::str_eq(d.date.as_str(), date.as_str()) {
            count += 1;
        }
        i += 1;
    }
    count
}

fn find_containing(generated: &Vec<String>, t: &String) -> (r: Option<usize>)
    ensures
        match r {
            Some(i) => first_containing(string_views(generated@), t@, 0) == Some(i as int),
            None => first_containing(string_views(generated@), t@, 0) is None,
        },
{
    let ghost g = string_views(generated@);
    let mut i: usize = 0;
    while i < generated.len()
        invariant
            g == string_views(generated@),
            i <= generated@.len(),
            first_containing(g, t@, 0) == first_containing(g, t@, i as int),
        decreases generated@.len() - i,
    {
        assert(g[i as int] == generated@[i as int]@);
        if contains_str(generated[i].as_str(), t.as_str()) {
            return Some(i);
        }
        i += 1;
    }
    None
}

/// Cross-checks the catalogue against the generated titles.
///
/// Every issue whose date another issue shares is listed as a duplicate.
/// Each issue's `title, date` is looked for in the generated titles, as a
/// part of one: the issues that none holds are listed as missing, and for the
/// others the position of the first title that holds it is kept. Those
/// positions, sorted, should run 0, 1, 2, ...; each one that breaks the run
/// is listed as a gap, and the check goes on.
pub fn compare_tables(table: &LookupTable, generated: &Vec<String>) -> (r: Report)
    ensures
        pair_views(r.duplicates@) == duplicates_spec(table@, table@.len() as int),
        pair_views(r.missing@) == missing_spec(table@, string_views(generated@), table@.len() as int),
        r.indexes@.to_multiset() == matched_spec(
            table@,
            string_views(generated@),
            table@.len() as int,
        ).to_multiset(),
        sorted(r.indexes@),
        r.gaps@ == gaps_spec(r.indexes@, r.indexes@.len() as int),
{
    let n = table.len();
    let ghost s = table@;
    let ghost g = string_views(generated@);
    let mut duplicates: Vec<(String, String)> = Vec::new();
    let mut missing: Vec<(String, String)> = Vec::new();
    let mut indexes: Vec<usize> = Vec::new();
    let mut i: usize = 0;
    while i < n
        invariant
            n == s.len(),
            s == table@,
            g == string_views(generated@),
            i <= n,
            pair_views(duplicates@) == duplicates_spec(s, i as int),
            pair_views(missing@) == missing_spec(s, g, i as int),
            indexes@ == matched_spec(s, g, i as int),
        decreases n - i,
    {
        let d: &IssueData = table.entry(i);
        let ghost dv = s[i as int];
        if count_date(table, &d.date) > 1 {
            let ghost before = pair_views(duplicates@);
            duplicates.push((d.tn.clone(), d.date.clone()));
            assert(pair_views(duplicates@) =~= before.push((dv.tn, dv.date)));
        }
        let title = d.record_title();
        match find_containing(generated, &title) {
            Some(k) => {
                indexes.push(k);
            },
            None => {
                let ghost before = pair_views(missing@);
                missing.push((d.tn.clone(), title));
                assert(pair_views(missing@) =~= before.push((dv.tn, record_title_of(dv))));
            },
        }
        i += 1;
    }
    sort_ascending(&mut indexes);
    let m = indexes.len();
    let mut gaps: Vec<usize> = Vec::new();
    let mut k: usize = 0;
    while k < m
        invariant
            m == indexes@.len(),
            k <= m,
            gaps@ == gaps_spec(indexes@, k as int),
        decreases m - k,
    {
        let is_gap = if k == 0 {
            indexes[0] != 0
        } else {
            indexes[k - 1] == usize::MAX || indexes[k] != indexes[k - 1] + 1
        };
        if is_gap {
            gaps.push(indexes[k]);
        }
        k += 1;
    }
    Report { duplicates, missing, indexes, gaps }
}

} // verus!
