//! Decimal integers as `str::parse` reads them: an optional sign, then one or
//! more ASCII digits, within the type's range.

use vstd::prelude::*;
use crate::parse::is_digit;

verus! {

/// Value of a run of ASCII digits.
pub open spec fn digits_value(s: Seq<char>) -> int
    decreases s.len(),
{
    if s.len() == 0 {
        0
    } else {
        digits_value(s.drop_last()) * 10 + ((s.last() as u32) - 48)
    }
}

pub open spec fn all_digits(s: Seq<char>) -> bool {
    forall|i: int| 0 <= i < s.len() ==> is_digit(#[trigger] s[i])
}

/// The integer `s` spells: `+` (or, when `signed`, `-`) then at least one digit.
pub open spec fn int_text(s: Seq<char>, signed: bool) -> Option<int> {
    let (neg, ds) = if s.len() > 0 && s[0] == '+' {
        (false, s.drop_first())
    } else if signed && s.len() > 0 && s[0] == '-' {
        (true, s.drop_first())
    } else {
        (false, s)
    };
    if ds.len() > 0 && all_digits(ds) {
        Some(
            if neg {
                -digits_value(ds)
            } else {
                digits_value(ds)
            },
        )
    } else {
        None
    }
}

/// `s.parse::<i64>().ok()`.
pub open spec fn i64_text(s: Seq<char>) -> Option<i64> {
    match int_text(s, true) {
        Some(v) => if i64::MIN <= v <= i64::MAX {
            Some(v as i64)
        } else {
            None
        },
        None => None,
    }
}

/// `s.parse::<u32>().ok()`.
pub open spec fn u32_text(s: Seq<char>) -> Option<u32> {
    match int_text(s, false) {
        Some(v) => if 0 <= v <= u32::MAX {
            Some(v as u32)
        } else {
            None
        },
        None => None,
    }
}

pub proof fn lemma_digits_nonneg(s: Seq<char>)
    requires
        all_digits(s),
    ensures
        digits_value(s) >= 0,
    decreases s.len(),
{
    if s.len() > 0 {
        assert(is_digit(s[s.len() - 1]));
        assert(all_digits(s.drop_last())) by {
            assert forall|i: int| 0 <= i < s.drop_last().len() implies is_digit(
                #[trigger] s.drop_last()[i],
            ) by {
                assert(s.drop_last()[i] == s[i]);
            }
        }
        lemma_digits_nonneg(s.drop_last());
    }
}

pub proof fn lemma_digits_monotone(s: Seq<char>, k: int)
    requires
        all_digits(s),
        0 <= k <= s.len(),
    ensures
        digits_value(s.take(k)) <= digits_value(s),
    decreases s.len() - k,
{
    if k < s.len() {
        let t = s.take(k + 1);
        assert(t.drop_last() =~= s.take(k));
        assert(all_digits(t)) by {
            assert forall|i: int| 0 <= i < t.len() implies is_digit(#[trigger] t[i]) by {
                assert(t[i] == s[i]);
            }
        }
        assert(all_digits(s.take(k))) by {
            assert forall|i: int| 0 <= i < s.take(k).len() implies is_digit(#[trigger] s.take(k)[i]) by {
                assert(s.take(k)[i] == s[i]);
            }
        }
        lemma_digits_nonneg(s.take(k));
        assert(is_digit(s[k]));
        assert(t.last() == s[k]);
        lemma_digits_monotone(s, k + 1);
    } else {
        assert(s.take(k) =~= s);
    }
}

/// The value of the digits `v[lo..hi]` when they are all digits, there is at
/// least one, and the value is at most `limit`.
pub fn digits_bounded(v: &Vec<char>, lo: usize, hi: usize, limit: u64) -> (r: Option<u64>)
    requires
        lo <= hi <= v@.len(),
        limit >= 9,
    ensures
        ({
            let s = v@.subrange(lo as int, hi as int);
            match r {
                Some(x) => s.len() > 0 && all_digits(s) && x == digits_value(s) && x <= limit,
                None => !(s.len() > 0 && all_digits(s) && digits_value(s) <= limit),
            }
        }),
{
    let ghost s = v@.subrange(lo as int, hi as int);
    if lo == hi {
        return None;
    }
    let mut acc: u64 = 0;
    let mut i = lo;
    assert(s.take(0) =~= Seq::<char>::empty());
    while i < hi
        invariant
            lo <= i <= hi <= v@.len(),
            s == v@.subrange(lo as int, hi as int),
            all_digits(s.take(i - lo)),
            acc == digits_value(s.take(i - lo)),
            acc <= limit,
            limit >= 9,
        decreases hi - i,
    {
        let c = v[i];
        assert(c == s[i - lo]);
        if !('0' <= c && c <= '9') {
            assert(!all_digits(s));
            return None;
        }
        let d = (c as u32 - 48) as u64;
        let ghost t = s.take(i - lo + 1);
        assert(t.drop_last() =~= s.take(i - lo));
        assert(t.last() == c);
        assert(all_digits(t)) by {
            assert forall|k: int| 0 <= k < t.len() implies is_digit(#[trigger] t[k]) by {
                if k < i - lo {
                    assert(t[k] == s.take(i - lo)[k]);
                }
            }
        }
        if acc > (limit - d) / 10 {
            proof {
                assert(digits_value(t) > limit) by (nonlinear_arith)
                    requires
                        digits_value(t) == acc * 10 + d,
                        acc > (limit - d) / 10,
                        d <= 9,
                ;
                if all_digits(s) {
                    lemma_digits_monotone(s, i - lo + 1);
                }
            }
            return None;
        }
        assert(acc * 10 + d <= limit) by (nonlinear_arith)
            requires
                acc <= (limit - d) / 10,
                d <= limit,
        ;
        acc = acc * 10 + d;
        i = i + 1;
    }
    assert(s.take(hi - lo) =~= s);
    Some(acc)
}

/// `v[lo..hi].parse::<i64>()`.
pub fn parse_i64_range(v: &Vec<char>, lo: usize, hi: usize) -> (r: Option<i64>)
    requires
        lo <= hi <= v@.len(),
    ensures
        r == i64_text(v@.subrange(lo as int, hi as int)),
{
    let ghost s = v@.subrange(lo as int, hi as int);
    let (neg, start) = if lo < hi && v[lo] == '+' {
        (false, lo + 1)
    } else if lo < hi && v[lo] == '-' {
        (true, lo + 1)
    } else {
        (false, lo)
    };
    let ghost ds = v@.subrange(start as int, hi as int);
    assert(start > lo ==> s.drop_first() =~= ds);
    assert(start == lo ==> s =~= ds);
    let limit: u64 = if neg {
        0x8000_0000_0000_0000
    } else {
        0x7fff_ffff_ffff_ffff
    };
    match digits_bounded(v, start, hi, limit) {
        Some(x) => {
            if neg {
                if x == 0x8000_0000_0000_0000 {
                    Some(i64::MIN)
                } else {
                    Some(-(x as i64))
                }
            } else {
                Some(x as i64)
            }
        },
        None => None,
    }
}

/// `v[lo..hi].parse::<u32>()`.
pub fn parse_u32_range(v: &Vec<char>, lo: usize, hi: usize) -> (r: Option<u32>)
    requires
        lo <= hi <= v@.len(),
    ensures
        r == u32_text(v@.subrange(lo as int, hi as int)),
{
    let ghost s = v@.subrange(lo as int, hi as int);
    let start = if lo < hi && v[lo] == '+' {
        lo + 1
    } else {
        lo
    };
    let ghost ds = v@.subrange(start as int, hi as int);
    assert(start > lo ==> s.drop_first() =~= ds);
    assert(start == lo ==> s =~= ds);
    match digits_bounded(v, start, hi, 0xffff_ffff) {
        Some(x) => Some(x as u32),
        None => {
            proof {
                if ds.len() > 0 && all_digits(ds) {
                    lemma_digits_nonneg(ds);
                }
            }
            None
        },
    }
}

} // verus!
