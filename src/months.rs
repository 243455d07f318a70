//! The three-letter month abbreviations and their two-digit numbers.

use vstd::prelude::*;
use vstd::string::*;
use crate::text::{digit_char, occurs_at, push_decimal, decimal, starts_with, str_eq};

verus! {

/// The number of months in the table.
pub const MONTH_COUNT: usize = 12;

/// The abbreviation of the month at `i`, counting January as 0.
pub open spec fn month_abbrev(i: int) -> Seq<char> {
    if i == 0 {
        seq!['J', 'a', 'n']
    } else if i == 1 {
        seq!['F', 'e', 'b']
    } else if i == 2 {
        seq!['M', 'a', 'r']
    } else if i == 3 {
        seq!['A', 'p', 'r']
    } else if i == 4 {
        seq!['M', 'a', 'y']
    } else if i == 5 {
        seq!['J', 'u', 'n']
    } else if i == 6 {
        seq!['J', 'u', 'l']
    } else if i == 7 {
        seq!['A', 'u', 'g']
    } else if i == 8 {
        seq!['S', 'e', 'p']
    } else if i == 9 {
        seq!['O', 'c', 't']
    } else if i == 10 {
        seq!['N', 'o', 'v']
    } else {
        seq!['D', 'e', 'c']
    }
}

/// The abbreviation of the month at `i`, counting January as 0.
pub fn month_name(i: usize) -> (r: &'static str)
    requires
        i < MONTH_COUNT,
    ensures
        r@ == month_abbrev(i as int),
{
    match i {
        0 => {
            proof {
                reveal_strlit("Jan");
            }
            "Jan"
        },
        1 => {
            proof {
                reveal_strlit("Feb");
            }
            "Feb"
        },
        2 => {
            proof {
                reveal_strlit("Mar");
            }
            "Mar"
        },
        3 => {
            proof {
                reveal_strlit("Apr");
            }
            "Apr"
        },
        4 => {
            proof {
                reveal_strlit("May");
            }
            "May"
        },
        5 => {
            proof {
                reveal_strlit("Jun");
            }
            "Jun"
        },
        6 => {
            proof {
                reveal_strlit("Jul");
            }
            "Jul"
        },
        7 => {
            proof {
                reveal_strlit("Aug");
            }
            "Aug"
        },
        8 => {
            proof {
                reveal_strlit("Sep");
            }
            "Sep"
        },
        9 => {
            proof {
                reveal_strlit("Oct");
            }
            "Oct"
        },
        10 => {
            proof {
                reveal_strlit("Nov");
            }
            "Nov"
        },
        _ => {
            proof {
                reveal_strlit("Dec");
            }
            "Dec"
        },
    }
}

/// The first month at or after `i` whose abbreviation is `s`.
pub open spec fn month_index_from(s: Seq<char>, i: int) -> Option<int>
    decreases 12 - i,
{
    if i < 0 || i >= 12 {
        None
    } else if month_abbrev(i) == s {
        Some(i)
    } else {
        month_index_from(s, i + 1)
    }
}

/// The month whose abbreviation is exactly `s`.
pub open spec fn month_index(s: Seq<char>) -> Option<int> {
    month_index_from(s, 0)
}

/// The first month at or after `i` whose abbreviation starts `s`.
pub open spec fn month_prefix_from(s: Seq<char>, i: int) -> Option<int>
    decreases 12 - i,
{
    if i < 0 || i >= 12 {
        None
    } else if occurs_at(s, month_abbrev(i), 0) {
        Some(i)
    } else {
        month_prefix_from(s, i + 1)
    }
}

/// The first month whose abbreviation `s` starts with.
pub open spec fn month_prefix(s: Seq<char>) -> Option<int> {
    month_prefix_from(s, 0)
}

/// The two-digit number of the month at `i`: `01` for January.
pub open spec fn month_number(i: int) -> Seq<char> {
    if i + 1 < 10 {
        seq!['0', digit_char(i + 1)]
    } else {
        seq!['1', digit_char(i + 1 - 10)]
    }
}

/// The month whose abbreviation is exactly `s`, counting January as 0.
pub fn find_month(s: &str) -> (r: Option<usize>)
    ensures
        r matches Some(i) ==> i < MONTH_COUNT,
        match r {
            Some(i) => month_index(s@) == Some(i as int),
            None => month_index(s@) is None,
        },
{
    let mut i: usize = 0;
    while i < MONTH_COUNT
        invariant
            i <= MONTH_COUNT,
            month_index(s@) == month_index_from(s@, i as int),
        decreases MONTH_COUNT - i,
    {
        if str_eq(month_name(i), s) {
            return Some(i);
        }
        i += 1;
    }
    None
}

/// The first month whose abbreviation `s` starts with, counting January as 0.
pub fn find_month_prefix(s: &str) -> (r: Option<usize>)
    ensures
        r matches Some(i) ==> i < MONTH_COUNT,
        match r {
            Some(i) => month_prefix(s@) == Some(i as int),
            None => month_prefix(s@) is None,
        },
{
    let mut i: usize = 0;
    while i < MONTH_COUNT
        invariant
            i <= MONTH_COUNT,
            month_prefix(s@) == month_prefix_from(s@, i as int),
        decreases MONTH_COUNT - i,
    {
        if starts_with(s, month_name(i)) {
            return Some(i);
        }
        i += 1;
    }
    None
}

/// The two-digit number of the month whose abbreviation is `maybe_month`:
/// `"Aug"` gives `"08"`. Any other text is not a month.
pub fn try_parse_month(maybe_month: &str) -> (r: Option<String>)
    ensures
        match r {
            Some(t) => month_index(maybe_month@) matches Some(i) && t@ == month_number(i),
            None => month_index(maybe_month@) is None,
        },
{
    match find_month(maybe_month) {
        Some(i) => {
            let mut out = String::new();
            if i + 1 < 10 {
                push_decimal(&mut out, 0);
                push_decimal(&mut out, (i + 1) as u64);
            } else {
                push_decimal(&mut out, (i + 1) as u64);
            }
            let ghost n = (i + 1) as nat;
            assert(decimal(0) == seq![digit_char(0)]);
            proof {
                if i + 1 < 10 {
                    assert(decimal(n) == seq![digit_char(n as int)]);
                } else {
                    assert(decimal(n) == decimal(n / 10).push(digit_char((n % 10) as int)));
                    assert(decimal(1) == seq![digit_char(1)]);
                }
            }
            assert(out@ =~= month_number(i as int));
            Some(out)
        },
        None => None,
    }
}

} // verus!
