//! How the run mode and the interval between cycles are read from their
//! configuration values.
use vstd::prelude::*;

verus! {

/// Minutes between cycles when no valid interval is configured.
pub const DEFAULT_INTERVAL_MINUTES: u64 = 30;

pub open spec fn is_digit(c: char) -> bool {
    '0' <= c && c <= '9'
}

/// The number written by the decimal digits `d`.
pub open spec fn digits_value(d: Seq<char>) -> nat
    decreases d.len(),
{
    if d.len() == 0 {
        0
    } else {
        digits_value(d.drop_last()) * 10 + ((d.last() as u32) - ('0' as u32)) as nat
    }
}

/// The digits of an unsigned number: the text without a leading `+`.
pub open spec fn unsigned_digits(s: Seq<char>) -> Seq<char> {
    if s.len() > 0 && s[0] == '+' {
        s.subrange(1, s.len() as int)
    } else {
        s
    }
}

/// An unsigned 64-bit number as text: an optional `+` and at least one
/// decimal digit, with a value that fits; `None` otherwise.
pub open spec fn parse_u64_of(s: Seq<char>) -> Option<u64> {
    let d = unsigned_digits(s);
    if d.len() == 0 || !(forall|i: int| 0 <= i < d.len() ==> is_digit(#[trigger] d[i]))
        || digits_value(d) > u64::MAX {
        None
    } else {
        Some(digits_value(d) as u64)
    }
}

/// The interval in minutes: the configured value where it is a valid
/// number, the default where it is missing or invalid.
pub open spec fn interval_minutes_of(value: Option<Seq<char>>) -> u64 {
    match value {
        Some(s) => match parse_u64_of(s) {
            Some(n) => n,
            None => DEFAULT_INTERVAL_MINUTES,
        },
        None => DEFAULT_INTERVAL_MINUTES,
    }
}

proof fn lemma_digits_value_grows(d: Seq<char>, i: int)
    requires
        0 <= i <= d.len(),
        forall|j: int| 0 <= j < d.len() ==> is_digit(#[trigger] d[j]),
    ensures
        digits_value(d.subrange(0, i)) <= digits_value(d),
    decreases d.len(),
{
    if i < d.len() {
        assert(d.drop_last() =~= d.subrange(0, d.len() - 1));
        assert(d.subrange(0, i) =~= d.drop_last().subrange(0, i));
        lemma_digits_value_grows(d.drop_last(), i);
    } else {
        assert(d.subrange(0, i) =~= d);
    }
}

/// Reads an unsigned 64-bit number (see `parse_u64_of`).
pub fn parse_u64(s: &str) -> (r: Option<u64>)
    ensures
        r == parse_u64_of(s@),
{
    let n = s.unicode_len();
    let start: usize = if n > 0 && s.get_char(0) == '+' {
        1
    } else {
        0
    };
    let d = s.substring_char(start, n);
    assert(d@ == unsigned_digits(s@));
    let m = d.unicode_len();
    if m == 0 {
        return None;
    }
    let mut i: usize = 0;
    while i < m
        invariant
            m == d@.len(),
            d@ == unsigned_digits(s@),
            i <= m,
            forall|j: int| 0 <= j < i ==> is_digit(#[trigger] d@[j]),
        decreases m - i,
    {
        let c = d.get_char(i);
        if !('0' <= c && c <= '9') {
            assert(!is_digit(d@[i as int]));
            return None;
        }
        i = i + 1;
    }
    let mut acc: u128 = 0;
    let mut k: usize = 0;
    while k < m
        invariant
            m == d@.len(),
            d@ == unsigned_digits(s@),
            k <= m,
            forall|j: int| 0 <= j < m ==> is_digit(#[trigger] d@[j]),
            acc == digits_value(d@.subrange(0, k as int)),
            acc <= u64::MAX,
        decreases m - k,
    {
        let c = d.get_char(k);
        let v: u128 = acc * 10 + ((c as u32) - ('0' as u32)) as u128;
        proof {
            let p = d@.subrange(0, k + 1);
            assert(p.drop_last() =~= d@.subrange(0, k as int));
            assert(p.last() == c);
            assert(is_digit(d@[k as int]));
            assert(v == digits_value(p));
        }
        if v > u64::MAX as u128 {
            proof {
                lemma_digits_value_grows(d@, k + 1);
            }
            return None;
        }
        acc = v;
        k = k + 1;
    }
    assert(d@.subrange(0, m as int) =~= d@);
    Some(acc as u64)
}

/// Whether a switch (run once, local mode, flat store) is on: its value is
/// exactly the text `true`.
pub fn switch_setting(value: Option<&str>) -> (r: bool)
    ensures
        r == (value matches Some(v) && v@ == "true"@),
{
    match value {
        Some(v) => {
            proof {
                reveal_strlit("true");
            }
            let t = "true";
            if v.unicode_len() != 4 {
                return false;
            }
            let mut i: usize = 0;
            while i < 4
                invariant
                    value == Some(v),
                    v@.len() == 4,
                    t@ == "true"@,
                    t@.len() == 4,
                    i <= 4,
                    forall|j: int| 0 <= j < i ==> v@[j] == t@[j],
                decreases 4 - i,
            {
                if v.get_char(i) != t.get_char(i) {
                    assert(v@[i as int] != t@[i as int]);
                    return false;
                }
                i = i + 1;
            }
            assert(v@ =~= t@);
            true
        },
        None => false,
    }
}

/// Minutes between cycles (see `interval_minutes_of`).
pub fn interval_minutes_setting(value: Option<&str>) -> (r: u64)
    ensures
        r == interval_minutes_of(
            match value {
                Some(v) => Some(v@),
                None => None,
            },
        ),
{
    match value {
        Some(v) => match parse_u64(v) {
            Some(n) => n,
            None => DEFAULT_INTERVAL_MINUTES,
        },
        None => DEFAULT_INTERVAL_MINUTES,
    }
}

/// Seconds to wait between cycles, saturating at the largest `u64`.
pub fn pause_seconds(minutes: u64) -> (r: u64)
    ensures
        r == if minutes * 60 <= u64::MAX {
            minutes * 60
        } else {
            u64::MAX as int
        },
{
    if minutes > u64::MAX / 60 {
        u64::MAX
    } else {
        minutes * 60
    }
}

} // verus!
