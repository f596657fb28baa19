//! Validated reading of integer and boolean field values.

use vstd::prelude::*;
use crate::text::{lower_seq, lower_chars, chars_eq};

verus! {

/// A decimal digit.
pub open spec fn is_digit(c: char) -> bool {
    '0' <= c && c <= '9'
}

/// Numeric value of a decimal digit.
pub open spec fn digit_val(c: char) -> int {
    c as int - '0' as int
}

/// Every character of `s` is a decimal digit.
pub open spec fn all_digits(s: Seq<char>) -> bool {
    forall|k: int| 0 <= k < s.len() ==> is_digit(#[trigger] s[k])
}

/// Numeric value of a digit string, most significant digit first.
pub open spec fn digits_val(s: Seq<char>) -> int
    decreases s.len(),
{
    if s.len() == 0 {
        0
    } else {
        digits_val(s.drop_last()) * 10 + digit_val(s.last())
    }
}

/// The value of a digit string is never negative.
pub proof fn lemma_digits_val_nonneg(s: Seq<char>)
    requires
        all_digits(s),
    ensures
        digits_val(s) >= 0,
    decreases s.len(),
{
    if s.len() > 0 {
        assert(all_digits(s.drop_last())) by {
            assert(forall|k: int| 0 <= k < s.len() - 1 ==> is_digit(#[trigger] s[k]));
        }
        lemma_digits_val_nonneg(s.drop_last());
    }
}

/// Result of reading a signed decimal integer: the value when the whole
/// string is an optional sign followed by at least one digit and the value
/// fits a signed 64-bit integer.
pub open spec fn i64_parse_spec(s: Seq<char>) -> Option<int> {
    let neg = s.len() > 0 && s[0] == '-';
    let ds = if s.len() > 0 && (s[0] == '-' || s[0] == '+') {
        s.drop_first()
    } else {
        s
    };
    if ds.len() == 0 || !all_digits(ds) {
        Option::None
    } else {
        let v = if neg {
            -digits_val(ds)
        } else {
            digits_val(ds)
        };
        if i64::MIN <= v <= i64::MAX {
            Option::Some(v)
        } else {
            Option::None
        }
    }
}

/// Reads a signed decimal 64-bit integer, as the declared `Int` and `Long`
/// field kinds require: an optional sign, then only digits, and a value in
/// range.
pub fn parse_i64(s: &Vec<char>) -> (r: Option<i64>)
    ensures
        match r {
            Option::Some(v) => i64_parse_spec(s@) == Option::Some(v as int),
            Option::None => i64_parse_spec(s@) is None,
        },
{
    let n = s.len();
    let mut start: usize = 0;
    let mut neg = false;
    if n > 0 && (s[0] == '-' || s[0] == '+') {
        neg = s[0] == '-';
        start = 1;
    }
    let ghost ds = if s@.len() > 0 && (s@[0] == '-' || s@[0] == '+') {
        s@.drop_first()
    } else {
        s@
    };
    proof {
        assert(ds =~= s@.subrange(start as int, n as int));
    }
    if start == n {
        return Option::None;
    }
    let cap: u128 = 0x1_0000_0000_0000_0000;
    let mut mag: u128 = 0;
    let mut i: usize = start;
    while i < n
        invariant
            start <= i <= n,
            n == s@.len(),
            start == 0 || start == 1,
            neg == (s@.len() > 0 && s@[0] == '-'),
            ds == (if s@.len() > 0 && (s@[0] == '-' || s@[0] == '+') {
                s@.drop_first()
            } else {
                s@
            }),
            ds =~= s@.subrange(start as int, n as int),
            cap == 0x1_0000_0000_0000_0000,
            all_digits(s@.subrange(start as int, i as int)),
            ({
                let pre = s@.subrange(start as int, i as int);
                (digits_val(pre) < cap && mag == digits_val(pre)) || (digits_val(pre) >= cap && mag
                    == cap)
            }),
            mag <= cap,
        decreases n - i,
    {
        let c = s[i];
        if !('0' <= c && c <= '9') {
            proof {
                assert(ds[i - start] == s@[i as int]);
                assert(!all_digits(ds));
            }
            return Option::None;
        }
        let d: u128 = (c as u32 as u128) - 48;
        proof {
            let pre = s@.subrange(start as int, i as int);
            let pre2 = s@.subrange(start as int, i + 1);
            assert(pre2.drop_last() =~= pre);
            assert(pre2.last() == s@[i as int]);
            assert(digits_val(pre2) == digits_val(pre) * 10 + digit_val(s@[i as int]));
            assert(d == digit_val(s@[i as int]));
            lemma_digits_val_nonneg(pre);
        }
        mag = mag * 10 + d;
        if mag >= cap {
            mag = cap;
        }
        proof {
            assert(all_digits(s@.subrange(start as int, i + 1)));
        }
        i = i + 1;
    }
    proof {
        assert(ds =~= s@.subrange(start as int, n as int));
        assert(all_digits(ds) && ds.len() > 0);
        lemma_digits_val_nonneg(ds);
    }
    let lim: u128 = 0x8000_0000_0000_0000;
    if neg {
        if mag > lim {
            return Option::None;
        }
        if mag == lim {
            return Option::Some(i64::MIN);
        }
        let m64: u64 = mag as u64;
        return Option::Some(-(m64 as i64));
    } else {
        if mag >= lim {
            return Option::None;
        }
        let m64: u64 = mag as u64;
        return Option::Some(m64 as i64);
    }
}

/// Result of reading a boolean: `"true"` and `"false"`, compared after ASCII
/// lowercasing, as the declared `Bool` field kind requires.
pub open spec fn bool_parse_spec(s: Seq<char>) -> Option<bool> {
    if lower_seq(s) == seq!['t', 'r', 'u', 'e'] {
        Option::Some(true)
    } else if lower_seq(s) == seq!['f', 'a', 'l', 's', 'e'] {
        Option::Some(false)
    } else {
        Option::None
    }
}

/// Reads a boolean value, case-insensitively.
pub fn parse_bool(s: &Vec<char>) -> (r: Option<bool>)
    ensures
        match r {
            Option::Some(v) => bool_parse_spec(s@) == Option::Some(v),
            Option::None => bool_parse_spec(s@) is None,
        },
{
    let low = lower_chars(s);
    let mut tv: Vec<char> = Vec::new();
    tv.push('t');
    tv.push('r');
    tv.push('u');
    tv.push('e');
    proof {
        assert(tv@ =~= seq!['t', 'r', 'u', 'e']);
    }
    if chars_eq(&low, &tv) {
        return Option::Some(true);
    }
    let mut fv: Vec<char> = Vec::new();
    fv.push('f');
    fv.push('a');
    fv.push('l');
    fv.push('s');
    fv.push('e');
    proof {
        assert(fv@ =~= seq!['f', 'a', 'l', 's', 'e']);
    }
    if chars_eq(&low, &fv) {
        return Option::Some(false);
    }
    Option::None
}

} // verus!
