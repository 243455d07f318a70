//! A calendar date whose month and day may be unknown.

use vstd::prelude::*;
use vstd::string::*;
use crate::text::{
    all_digits, digits_value, is_digit, join_char, lemma_decimal_digits, lemma_join_split,
    lemma_split_char_len, parse_i32, parse_i32_spec, push_signed_decimal, signed_decimal,
    split_char, split_on_char,
};
use core::cmp::Ordering;

verus! {

/// A year, with an optional month and an optional day.
///
/// A day without a month is not a valid date (see `is_valid`).
#[derive(PartialEq, Eq, Structural, Ord, Debug, Clone, Copy)]
pub struct Date {
    pub year: i32,
    pub month: Option<i32>,
    pub day: Option<i32>,
}

/// Why a text is not a date.
#[derive(PartialEq, Eq, Structural, Debug, Clone, Copy)]
pub enum DateError {
    InvalidYear,
    InvalidMonth,
    InvalidDay,
    /// The text has more than three `-`-separated components.
    WrongComponentCount,
}

/// `None` sorts before every `Some`; two `Some` compare by their values.
pub open spec fn option_cmp(a: Option<i32>, b: Option<i32>) -> Ordering {
    match (a, b) {
        (None, None) => Ordering::Equal,
        (None, Some(_)) => Ordering::Less,
        (Some(_), None) => Ordering::Greater,
        (Some(x), Some(y)) => if x < y {
            Ordering::Less
        } else if x == y {
            Ordering::Equal
        } else {
            Ordering::Greater
        },
    }
}

/// The order of two integers.
pub open spec fn int_cmp(x: i32, y: i32) -> Ordering {
    if x < y {
        Ordering::Less
    } else if x == y {
        Ordering::Equal
    } else {
        Ordering::Greater
    }
}

/// The first of two orderings that is not `Equal`.
pub open spec fn then(a: Ordering, b: Ordering) -> Ordering {
    if a == Ordering::Equal {
        b
    } else {
        a
    }
}

/// The parse of one component.
pub open spec fn component(t: Seq<char>, e: DateError) -> Result<i32, DateError> {
    match parse_i32_spec(t) {
        Some(v) => Ok(v),
        None => Err(e),
    }
}

fn parse_component(t: &str, e: DateError) -> (r: Result<i32, DateError>)
    ensures
        r == component(t@, e),
{
    match parse_i32(t) {
        Some(v) => Ok(v),
        None => Err(e),
    }
}

impl Date {
    /// A day is only known together with a month.
    pub open spec fn is_valid(self) -> bool {
        self.day is Some ==> self.month is Some
    }

    /// The date that a text of one to three `-`-separated integers denotes.
    pub open spec fn spec_parse(s: Seq<char>) -> Result<Date, DateError> {
        let parts = split_char(s, '-');
        if parts.len() == 1 {
            match component(parts[0], DateError::InvalidYear) {
                Ok(y) => Ok(Date { year: y, month: None, day: None }),
                Err(e) => Err(e),
            }
        } else if parts.len() == 2 {
            match component(parts[0], DateError::InvalidYear) {
                Err(e) => Err(e),
                Ok(y) => match component(parts[1], DateError::InvalidMonth) {
                    Err(e) => Err(e),
                    Ok(m) => Ok(Date { year: y, month: Some(m), day: None }),
                },
            }
        } else if parts.len() == 3 {
            match component(parts[0], DateError::InvalidYear) {
                Err(e) => Err(e),
                Ok(y) => match component(parts[1], DateError::InvalidMonth) {
                    Err(e) => Err(e),
                    Ok(m) => match component(parts[2], DateError::InvalidDay) {
                        Err(e) => Err(e),
                        Ok(d) => Ok(Date { year: y, month: Some(m), day: Some(d) }),
                    },
                },
            }
        } else {
            Err(DateError::WrongComponentCount)
        }
    }

    /// Parses `YYYY`, `YYYY-M` or `YYYY-M-D`.
    pub fn parse(s: &str) -> (r: Result<Date, DateError>)
        ensures
            r == Date::spec_parse(s@),
            r matches Ok(d) ==> d.is_valid(),
    {
        let parts = split_on_char(s, '-');
        proof {
            lemma_split_char_len(s@, '-');
        }
        assert(parts@.len() == split_char(s@, '-').len());
        if parts.len() == 1 {
            assert(parts@[0]@ == split_char(s@, '-')[0]);
            let y = parse_component(parts[0], DateError::InvalidYear)?;
            Ok(Date { year: y, month: None, day: None })
        } else if parts.len() == 2 {
            assert(parts@[0]@ == split_char(s@, '-')[0]);
            assert(parts@[1]@ == split_char(s@, '-')[1]);
            let y = parse_component(parts[0], DateError::InvalidYear)?;
            let m = parse_component(parts[1], DateError::InvalidMonth)?;
            Ok(Date { year: y, month: Some(m), day: None })
        } else if parts.len() == 3 {
            assert(parts@[0]@ == split_char(s@, '-')[0]);
            assert(parts@[1]@ == split_char(s@, '-')[1]);
            assert(parts@[2]@ == split_char(s@, '-')[2]);
            let y = parse_component(parts[0], DateError::InvalidYear)?;
            let m = parse_component(parts[1], DateError::InvalidMonth)?;
            let d = parse_component(parts[2], DateError::InvalidDay)?;
            Ok(Date { year: y, month: Some(m), day: Some(d) })
        } else {
            Err(DateError::WrongComponentCount)
        }
    }

    /// `YYYY`, `YYYY-M` or `YYYY-M-D`, after the fields that are known.
    pub open spec fn spec_display(self) -> Seq<char> {
        let y = signed_decimal(self.year as int);
        match (self.month, self.day) {
            (Some(m), Some(d)) => y + seq!['-'] + signed_decimal(m as int) + seq!['-']
                + signed_decimal(d as int),
            (Some(m), None) => y + seq!['-'] + signed_decimal(m as int),
            _ => y,
        }
    }

    /// Writes the date out; a day without a month is refused.
    pub fn display(&self) -> (r: String)
        requires
            self.is_valid(),
        ensures
            r@ == self.spec_display(),
    {
        let dash = "-";
        proof {
            reveal_strlit("-");
        }
        let mut out = String::new();
        push_signed_decimal(&mut out, self.year);
        match (self.month, self.day) {
            (Some(m), Some(d)) => {
                out.append(dash);
                push_signed_decimal(&mut out, m);
                out.append(dash);
                push_signed_decimal(&mut out, d);
            },
            (Some(m), None) => {
                out.append(dash);
                push_signed_decimal(&mut out, m);
            },
            _ => {},
        }
        out
    }

    /// Year first, then month, then day; an unknown field sorts first.
    pub open spec fn spec_cmp(self, other: Date) -> Ordering {
        then(
            int_cmp(self.year, other.year),
            then(option_cmp(self.month, other.month), option_cmp(self.day, other.day)),
        )
    }
}

fn cmp_option(a: Option<i32>, b: Option<i32>) -> (r: Ordering)
    ensures
        r == option_cmp(a, b),
{
    match (a, b) {
        (None, None) => Ordering::Equal,
        (None, Some(_)) => Ordering::Less,
        (Some(_), None) => Ordering::Greater,
        (Some(x), Some(y)) => if x < y {
            Ordering::Less
        } else if x == y {
            Ordering::Equal
        } else {
            Ordering::Greater
        },
    }
}

impl PartialOrd for Date {
    fn partial_cmp(&self, other: &Date) -> (r: Option<Ordering>)
        ensures
            r == Some(self.spec_cmp(*other)),
    {
        let year = if self.year < other.year {
            Ordering::Less
        } else if self.year == other.year {
            Ordering::Equal
        } else {
            Ordering::Greater
        };
        match year {
            Ordering::Equal => {},
            _ => return Some(year),
        }
        let month = cmp_option(self.month, other.month);
        match month {
            Ordering::Equal => {},
            _ => return Some(month),
        }
        Some(cmp_option(self.day, other.day))
    }
}

impl vstd::std_specs::cmp::PartialOrdSpecImpl for Date {
    open spec fn obeys_partial_cmp_spec() -> bool {
        true
    }

    open spec fn partial_cmp_spec(&self, other: &Date) -> Option<Ordering> {
        Some(self.spec_cmp(*other))
    }
}


/// `a` is unknown and `b` known, or both are known and `a` is smaller.
pub open spec fn option_lt(a: Option<i32>, b: Option<i32>) -> bool {
    match (a, b) {
        (None, Some(_)) => true,
        (Some(x), Some(y)) => x < y,
        _ => false,
    }
}

/// The order on dates is total: every date equals itself, only equal dates
/// compare equal, swapping the operands swaps `Less` and `Greater`, and `Less`
/// is transitive. A date is less than another exactly when `(year, month, day)`
/// is less as a tuple, with an unknown month or day before every known one.
pub proof fn lemma_date_order_total(a: Date, b: Date, c: Date)
    ensures
        a.spec_cmp(a) == Ordering::Equal,
        a.spec_cmp(b) == Ordering::Equal <==> a == b,
        a.spec_cmp(b) == Ordering::Less <==> b.spec_cmp(a) == Ordering::Greater,
        a.spec_cmp(b) == Ordering::Less && b.spec_cmp(c) == Ordering::Less ==> a.spec_cmp(c)
            == Ordering::Less,
        a.spec_cmp(b) == Ordering::Less <==> (a.year < b.year || (a.year == b.year && option_lt(
            a.month,
            b.month,
        )) || (a.year == b.year && a.month == b.month && option_lt(a.day, b.day))),
{
}

/// A run of digits that spells a number without leading zeros and fits in `i32`.
pub open spec fn is_canonical_number(t: Seq<char>) -> bool {
    &&& t.len() > 0
    &&& all_digits(t)
    &&& t.len() == 1 || t[0] != '0'
    &&& digits_value(t) <= i32::MAX
}

/// One to three canonical numbers joined by `-`.
pub open spec fn is_canonical_date_text(s: Seq<char>) -> bool {
    let parts = split_char(s, '-');
    &&& 1 <= parts.len() <= 3
    &&& forall|i: int| 0 <= i < parts.len() ==> is_canonical_number(#[trigger] parts[i])
}

/// A canonical number parses to its value and is that value's spelling.
proof fn lemma_canonical_component(t: Seq<char>, e: DateError)
    requires
        is_canonical_number(t),
    ensures
        component(t, e) == Ok::<i32, DateError>(digits_value(t) as i32),
        signed_decimal(digits_value(t) as i32 as int) == t,
{
    lemma_decimal_digits(t);
    assert(is_digit(t[0]));
}

/// A date written in canonical form parses to a valid date, and displaying
/// that date gives back the text.
pub proof fn lemma_parse_display_round_trip(s: Seq<char>)
    requires
        is_canonical_date_text(s),
    ensures
        Date::spec_parse(s) matches Ok(d) && d.is_valid() && d.spec_display() == s,
{
    let parts = split_char(s, '-');
    lemma_join_split(s, '-');
    lemma_canonical_component(parts[0], DateError::InvalidYear);
    if parts.len() >= 2 {
        lemma_canonical_component(parts[1], DateError::InvalidMonth);
    }
    if parts.len() == 2 {
        assert(parts.drop_last() =~= seq![parts[0]]);
        assert(join_char(parts.drop_last(), '-') == parts[0]);
        assert(s =~= parts[0] + seq!['-'] + parts[1]);
    }
    if parts.len() == 3 {
        lemma_canonical_component(parts[2], DateError::InvalidDay);
        let q = parts.drop_last();
        assert(q.drop_last() =~= seq![parts[0]]);
        assert(q.last() == parts[1]);
        assert(join_char(q.drop_last(), '-') == parts[0]);
        assert(join_char(q, '-') == join_char(q.drop_last(), '-') + seq!['-'] + q.last());
        assert(join_char(parts, '-') == join_char(q, '-') + seq!['-'] + parts.last());
        assert(s =~= parts[0] + seq!['-'] + parts[1] + seq!['-'] + parts[2]);
    }
}

} // verus!
