//! The catalogue's issues, kept in the order of their identifiers.

use vstd::prelude::*;
use crate::diagnostic::{diag_views, Diagnostic, DiagnosticView};
use vstd::string::*;
use crate::issue_data::{record_title_of, parse_title_notices, parse_title_spec, IssueData, IssueDataView, TitleError};
use crate::text::{
    lemma_text_lt_irreflexive, lemma_text_lt_total, lemma_text_lt_transitive, str_eq, text_cmp,
    text_lt,
};
use core::cmp::Ordering;

verus! {

/// The identifiers of `s` strictly increase.
pub open spec fn keys_sorted(s: Seq<IssueDataView>) -> bool {
    forall|i: int, j: int| 0 <= i < j < s.len() ==> text_lt(#[trigger] s[i].tn, #[trigger] s[j].tn)
}

/// `s` holds exactly the issues of `m`, each under its own identifier.
pub open spec fn agrees(s: Seq<IssueDataView>, m: Map<Seq<char>, IssueDataView>) -> bool {
    &&& forall|i: int| 0 <= i < s.len() ==> #[trigger] m.contains_key(s[i].tn) && m[s[i].tn] == s[i]
    &&& forall|k: Seq<char>| #[trigger]
        m.contains_key(k) ==> exists|i: int| 0 <= i < s.len() && s[i].tn == k
}

/// Issues keyed by identifier, in the identifiers' order.
pub struct LookupTable {
    entries: Vec<IssueData>,
}

impl View for LookupTable {
    type V = Seq<IssueDataView>;

    closed spec fn view(&self) -> Seq<IssueDataView> {
        self.entries@.map_values(|d: IssueData| d@)
    }
}

/// One row of the catalogue: an identifier, a title and a load time.
pub struct LookupRow {
    pub tn: String,
    pub title: String,
    pub date_loaded: String,
}

pub struct LookupRowView {
    pub tn: Seq<char>,
    pub title: Seq<char>,
    pub date_loaded: Seq<char>,
}

impl View for LookupRow {
    type V = LookupRowView;

    open spec fn view(&self) -> LookupRowView {
        LookupRowView { tn: self.tn@, title: self.title@, date_loaded: self.date_loaded@ }
    }
}

/// Why the catalogue cannot be read: the title of row `row` cannot.
#[derive(PartialEq, Eq, Structural, Debug, Clone, Copy)]
pub struct RowError {
    pub row: usize,
    pub error: TitleError,
}

/// The table that the rows give: rows with an empty identifier are skipped,
/// and a later row replaces an earlier one with the same identifier. The
/// first row whose title cannot be read stops the reading.
pub open spec fn build_spec(rows: Seq<LookupRowView>) -> Result<Map<Seq<char>, IssueDataView>, RowError>
    decreases rows.len(),
{
    if rows.len() == 0 {
        Ok(Map::empty())
    } else {
        match build_spec(rows.drop_last()) {
            Err(e) => Err(e),
            Ok(m) => {
                let r = rows.last();
                if r.tn.len() == 0 {
                    Ok(m)
                } else {
                    match parse_title_spec(r.tn, r.title, r.date_loaded) {
                        Err(e) => Err(RowError { row: (rows.len() - 1) as usize, error: e }),
                        Ok(v) => Ok(m.insert(r.tn, v)),
                    }
                }
            },
        }
    }
}

/// The notices that reading the rows emits, up to the row that stops it.
pub open spec fn build_notices(rows: Seq<LookupRowView>) -> Seq<DiagnosticView>
    decreases rows.len(),
{
    if rows.len() == 0 {
        Seq::empty()
    } else {
        let before = build_notices(rows.drop_last());
        match build_spec(rows.drop_last()) {
            Err(_) => before,
            Ok(_) => if rows.last().tn.len() == 0 {
                before
            } else {
                before + parse_title_notices(rows.last().title)
            },
        }
    }
}

/// The last of the first `n` issues of `s` whose `title, date` is `t`.
pub open spec fn last_with_record_title(s: Seq<IssueDataView>, t: Seq<char>, n: int) -> Option<int>
    decreases n,
{
    if n <= 0 {
        None
    } else if record_title_of(s[n - 1]) == t {
        Some(n - 1)
    } else {
        last_with_record_title(s, t, n - 1)
    }
}

impl LookupTable {
    /// The position of the issue with identifier `tn`.
    pub fn position(&self, tn: &str) -> (r: Option<usize>)
        ensures
            match r {
                Some(i) => i < self@.len() && self@[i as int].tn == tn@,
                None => forall|i: int| 0 <= i < self@.len() ==> #[trigger] self@[i].tn != tn@,
            },
    {
        let mut i: usize = 0;
        while i < self.entries.len()
            invariant
                i <= self@.len(),
                forall|j: int| 0 <= j < i ==> #[trigger] self@[j].tn != tn@,
            decreases self@.len() - i,
        {
            assert(self@[i as int] == self.entries@[i as int]@);
            if str_eq(self.entries[i].tn.as_str(), tn) {
                return Some(i);
            }
            i += 1;
        }
        None
    }

    /// The position of the last issue, in identifier order, whose
    /// `title, date` is `title`: re-keying the table by that text keeps the
    /// last issue of each key.
    pub fn position_by_record_title(&self, title: &str) -> (r: Option<usize>)
        ensures
            opt_index(r) == last_with_record_title(self@, title@, self@.len() as int),
            r matches Some(i) ==> i < self@.len() && record_title_of(self@[i as int]) == title@,
    {
        let mut i: usize = self.entries.len();
        while i > 0
            invariant
                i <= self@.len(),
                last_with_record_title(self@, title@, self@.len() as int)
                    == last_with_record_title(self@, title@, i as int),
            decreases i,
        {
            assert(self@[i - 1] == self.entries@[i - 1]@);
            let t = self.entries[i - 1].record_title();
            if str_eq(t.as_str(), title) {
                return Some(i - 1);
            }
            i -= 1;
        }
        None
    }

    /// The identifiers strictly increase.
    pub open spec fn wf(&self) -> bool {
        keys_sorted(self@)
    }

    /// An empty table.
    pub fn new() -> (r: LookupTable)
        ensures
            r.wf(),
            r@.len() == 0,
    {
        LookupTable { entries: Vec::new() }
    }

    /// The number of issues.
    pub fn len(&self) -> (r: usize)
        ensures
            r == self@.len(),
    {
        self.entries.len()
    }

    /// The issue at position `i` in identifier order.
    pub fn entry(&self, i: usize) -> (r: &IssueData)
        requires
            i < self@.len(),
        ensures
            r@ == self@[i as int],
    {
        &self.entries[i]
    }

    /// Adds `d` under its identifier, replacing an issue with the same one.
    pub fn insert(&mut self, d: IssueData)
        requires
            old(self).wf(),
        ensures
            final(self).wf(),
            forall|m: Map<Seq<char>, IssueDataView>|
                agrees(old(self)@, m) ==> #[trigger] agrees(final(self)@, m.insert(d@.tn, d@)),
    {
        let ghost v = d@;
        let ghost s = self@;
        let mut i: usize = 0;
        while i < self.entries.len()
            invariant
                self.wf(),
                self@ == s,
                v == d@,
                i <= s.len(),
                forall|j: int| 0 <= j < i ==> text_lt(#[trigger] s[j].tn, v.tn),
            ensures
                i <= s.len(),
                forall|j: int| 0 <= j < i ==> text_lt(#[trigger] s[j].tn, v.tn),
                i < s.len() ==> !text_lt(s[i as int].tn, v.tn),
            decreases s.len() - i,
        {
            assert(self@[i as int] == self.entries@[i as int]@);
            match text_cmp(self.entries[i].tn.as_str(), d.tn.as_str()) {
                Ordering::Less => {
                    assert(text_lt(s[i as int].tn, v.tn));
                },
                _ => break,
            }
            i += 1;
        }
        assert(i < s.len() ==> self@[i as int] == self.entries@[i as int]@);
        let same = i < self.entries.len() && match text_cmp(
            self.entries[i].tn.as_str(),
            d.tn.as_str(),
        ) {
            Ordering::Equal => true,
            _ => false,
        };
        if same {
            self.entries.set(i, d);
            let ghost f = self@;
            assert(f =~= s.update(i as int, v));
            proof {
                assert forall|m: Map<Seq<char>, IssueDataView>|
                    agrees(s, m) implies #[trigger] agrees(f, m.insert(v.tn, v)) by {
                    let m2 = m.insert(v.tn, v);
                    assert forall|k: Seq<char>| #[trigger]
                        m2.contains_key(k) implies exists|j: int| 0 <= j < f.len() && f[j].tn == k by {
                        if k != v.tn {
                            let j = choose|j: int| 0 <= j < s.len() && s[j].tn == k;
                            assert(f[j].tn == k);
                        } else {
                            assert(f[i as int].tn == k);
                        }
                    }
                    assert forall|j: int| 0 <= j < f.len() implies #[trigger] m2.contains_key(
                        f[j].tn,
                    ) && m2[f[j].tn] == f[j] by {
                        if j != i {
                            assert(f[j] == s[j]);
                            assert(m.contains_key(s[j].tn));
                            if s[j].tn == v.tn {
                                if j < i {
                                    assert(text_lt(s[j].tn, s[i as int].tn));
                                    lemma_text_lt_irreflexive(v.tn);
                                } else {
                                    assert(text_lt(s[i as int].tn, s[j].tn));
                                    lemma_text_lt_irreflexive(v.tn);
                                }
                            }
                        }
                    }
                }
            }
        } else {
            proof {
                assert forall|j: int| i <= j < s.len() implies text_lt(v.tn, #[trigger] s[j].tn) by {
                    lemma_text_lt_total(s[i as int].tn, v.tn);
                    if j > i {
                        lemma_text_lt_transitive(v.tn, s[i as int].tn, s[j].tn);
                    }
                }
            }
            self.entries.insert(i, d);
            let ghost f = self@;
            assert(f =~= s.insert(i as int, v));
            proof {
                assert forall|a: int, b: int| 0 <= a < b < f.len() implies text_lt(
                    #[trigger] f[a].tn,
                    #[trigger] f[b].tn,
                ) by {
                    if a < i && b > i {
                        lemma_text_lt_transitive(f[a].tn, v.tn, f[b].tn);
                    }
                }
                assert forall|m: Map<Seq<char>, IssueDataView>|
                    agrees(s, m) implies #[trigger] agrees(f, m.insert(v.tn, v)) by {
                    let m2 = m.insert(v.tn, v);
                    assert forall|k: Seq<char>| #[trigger]
                        m2.contains_key(k) implies exists|j: int| 0 <= j < f.len() && f[j].tn == k by {
                        if k != v.tn {
                            let j = choose|j: int| 0 <= j < s.len() && s[j].tn == k;
                            if j < i {
                                assert(f[j].tn == k);
                            } else {
                                assert(f[j + 1].tn == k);
                            }
                        } else {
                            assert(f[i as int].tn == k);
                        }
                    }
                    assert forall|j: int| 0 <= j < f.len() implies #[trigger] m2.contains_key(
                        f[j].tn,
                    ) && m2[f[j].tn] == f[j] by {
                        if j < i {
                            assert(f[j] == s[j]);
                            assert(m.contains_key(s[j].tn));
                            assert(text_lt(s[j].tn, v.tn));
                            lemma_text_lt_irreflexive(v.tn);
                        } else if j > i {
                            assert(f[j] == s[j - 1]);
                            assert(m.contains_key(s[j - 1].tn));
                            assert(text_lt(v.tn, s[j - 1].tn));
                            lemma_text_lt_irreflexive(v.tn);
                        }
                    }
                }
            }
        }
    }
}


/// A position as an `int`.
pub open spec fn opt_index(o: Option<usize>) -> Option<int> {
    match o {
        Some(i) => Some(i as int),
        None => None,
    }
}

/// The views of the rows.
pub open spec fn row_views(rows: Seq<LookupRow>) -> Seq<LookupRowView> {
    rows.map_values(|r: LookupRow| r@)
}

/// A failure at some row stays the failure once more rows follow.
proof fn lemma_build_failure_stays(rows: Seq<LookupRowView>, k: int)
    requires
        0 <= k <= rows.len(),
        build_spec(rows.take(k)) is Err,
    ensures
        build_spec(rows) == build_spec(rows.take(k)),
        build_notices(rows) == build_notices(rows.take(k)),
    decreases rows.len(),
{
    if k < rows.len() {
        assert(rows.drop_last().take(k) =~= rows.take(k));
        lemma_build_failure_stays(rows.drop_last(), k);
    } else {
        assert(rows.take(k) =~= rows);
    }
}

/// Reads one row into the table.
fn add_row(table: &mut LookupTable, row: &LookupRow, log: &mut Vec<Diagnostic>) -> (r: Result<
    (),
    TitleError,
>)
    requires
        old(table).wf(),
    ensures
        final(table).wf(),
        row@.tn.len() == 0 ==> r is Ok && final(table)@ == old(table)@,
        row@.tn.len() > 0 ==> match parse_title_spec(row@.tn, row@.title, row@.date_loaded) {
            Ok(v) => r is Ok && forall|m: Map<Seq<char>, IssueDataView>|
                agrees(old(table)@, m) ==> #[trigger] agrees(final(table)@, m.insert(row@.tn, v)),
            Err(e) => r == Err::<(), TitleError>(e),
        },
        diag_views(final(log)@) == diag_views(old(log)@) + (if row@.tn.len() == 0 {
            Seq::empty()
        } else {
            parse_title_notices(row@.title)
        }),
{
    if row.tn.unicode_len() == 0 {
        assert(diag_views(log@) =~= diag_views(old(log)@) + Seq::empty());
        return Ok(());
    }
    let parsed = IssueData::try_new(
        row.tn.clone(),
        row.title.clone(),
        row.date_loaded.clone(),
        log,
    );
    match parsed {
        Ok(d) => {
            assert(d@.tn == row@.tn);
            table.insert(d);
            Ok(())
        },
        Err(e) => Err(e),
    }
}

/// Reads the catalogue rows into a table keyed by identifier.
///
/// Rows with an empty identifier are skipped; a later row replaces an earlier
/// one with the same identifier. The first row whose title cannot be read
/// stops the reading with its position. `log` gets the notices of each title.
pub fn build_lookup_table(rows: &Vec<LookupRow>, log: &mut Vec<Diagnostic>) -> (r: Result<
    LookupTable,
    RowError,
>)
    ensures
        match r {
            Ok(t) => t.wf() && (build_spec(row_views(rows@)) matches Ok(m) && agrees(t@, m)),
            Err(e) => build_spec(row_views(rows@)) == Err::<Map<Seq<char>, IssueDataView>, RowError>(e),
        },
        diag_views(final(log)@) == diag_views(old(log)@) + build_notices(row_views(rows@)),
{
    let ghost rv = row_views(rows@);
    let mut table = LookupTable::new();
    let ghost mut m: Map<Seq<char>, IssueDataView> = Map::empty();
    let mut i: usize = 0;
    assert(rv.take(0) =~= Seq::<LookupRowView>::empty());
    assert(diag_views(log@) =~= diag_views(old(log)@) + build_notices(rv.take(0)));
    while i < rows.len()
        invariant
            rv == row_views(rows@),
            i <= rows@.len(),
            table.wf(),
            build_spec(rv.take(i as int)) == Ok::<Map<Seq<char>, IssueDataView>, RowError>(m),
            agrees(table@, m),
            diag_views(log@) == diag_views(old(log)@) + build_notices(rv.take(i as int)),
        decreases rows@.len() - i,
    {
        let row = &rows[i];
        let ghost pre = rv.take(i + 1);
        assert(pre.drop_last() =~= rv.take(i as int));
        assert(pre.last() == row@);
        let res = add_row(&mut table, row, log);
        assert(diag_views(log@) =~= diag_views(old(log)@) + build_notices(pre));
        match res {
            Ok(()) => {
                proof {
                    if row@.tn.len() > 0 {
                        let v = parse_title_spec(row@.tn, row@.title, row@.date_loaded)->Ok_0;
                        m = m.insert(row@.tn, v);
                    }
                }
            },
            Err(e) => {
                proof {
                    lemma_build_failure_stays(rv, i + 1);
                }
                return Err(RowError { row: i, error: e });
            },
        }
        i += 1;
    }
    assert(rv.take(i as int) =~= rv);
    Ok(table)
}

} // verus!
