//! Exact decimal model of float field values: literals are parsed into a
//! canonical sign/digits/point form that orders by numeric value, so float
//! ranges compare without any floating point arithmetic. Exponents beyond
//! ten to the thirtieth are clamped, far past the finite range of the
//! engine's 64-bit floats.

use vstd::prelude::*;
use crate::text::lower_seq;
use crate::values::{is_digit, digit_val, digits_val, all_digits, lemma_digits_val_nonneg};

verus! {

/// A finite float field value, held exactly: the sign, the significant
/// decimal digits, and the position of the decimal point. The value is
/// `digits * 10^(point - digits.len())`, negated when `neg` holds. The
/// digits carry no leading and no trailing zero; zero itself is the empty
/// digit string with `point == 0` and `neg == false`. Two well-formed keys
/// are numerically equal exactly when they are structurally equal, and the
/// numeric order is the structural order of [`dec_lt`].
pub struct DecKey {
    pub neg: bool,
    pub digits: Vec<u8>,
    pub point: i128,
}

/// Spec-level image of a [`DecKey`].
pub struct DecV {
    pub neg: bool,
    pub digits: Seq<u8>,
    pub point: int,
}

impl View for DecKey {
    type V = DecV;

    open spec fn view(&self) -> DecV {
        DecV { neg: self.neg, digits: self.digits@, point: self.point as int }
    }
}

/// A float field value as the model orders it: negative infinity below
/// every finite value, positive infinity above, and the not-a-number value
/// above everything, mirroring how the engine's order-preserving 64-bit
/// image sorts a positive NaN.
pub enum FloatVal {
    NegInf,
    Num(DecKey),
    PosInf,
    NaN,
}

/// Spec-level image of a [`FloatVal`].
pub enum FloatV {
    NegInf,
    Num(DecV),
    PosInf,
    NaN,
}

impl View for FloatVal {
    type V = FloatV;

    open spec fn view(&self) -> FloatV {
        match self {
            FloatVal::NegInf => FloatV::NegInf,
            FloatVal::Num(d) => FloatV::Num(d@),
            FloatVal::PosInf => FloatV::PosInf,
            FloatVal::NaN => FloatV::NaN,
        }
    }
}

/// Well-formedness of a decimal key: digit values only, no leading or
/// trailing zero, and the canonical zero form.
pub open spec fn wf_dec(d: DecV) -> bool {
    &&& forall|k: int| 0 <= k < d.digits.len() ==> 0 <= #[trigger] d.digits[k] <= 9
    &&& (d.digits.len() > 0 ==> d.digits[0] != 0)
    &&& (d.digits.len() > 0 ==> d.digits[d.digits.len() - 1] != 0)
    &&& (d.digits.len() == 0 ==> !d.neg && d.point == 0)
}

/// Well-formedness of a float value.
pub open spec fn wf_float(f: FloatV) -> bool {
    match f {
        FloatV::Num(d) => wf_dec(d),
        _ => true,
    }
}

/// Strict lexicographic order on digit strings.
pub open spec fn digits_lt(a: Seq<u8>, b: Seq<u8>) -> bool
    decreases a.len(),
{
    if b.len() == 0 {
        false
    } else if a.len() == 0 {
        true
    } else if a[0] != b[0] {
        a[0] < b[0]
    } else {
        digits_lt(a.drop_first(), b.drop_first())
    }
}

/// Dropping a common prefix does not change the digit-string comparison.
pub proof fn lemma_digits_skip(a: Seq<u8>, b: Seq<u8>, i: int)
    requires
        0 <= i <= a.len(),
        i <= b.len(),
        forall|k: int| 0 <= k < i ==> a[k] == b[k],
    ensures
        digits_lt(a, b) == digits_lt(a.skip(i), b.skip(i)),
    decreases i,
{
    if i > 0 {
        assert(a.len() > 0 && b.len() > 0 && a[0] == b[0]);
        assert(forall|k: int|
            0 <= k < i - 1 ==> #[trigger] a.drop_first()[k] == b.drop_first()[k]);
        lemma_digits_skip(a.drop_first(), b.drop_first(), i - 1);
        assert(a.drop_first().skip(i - 1) =~= a.skip(i));
        assert(b.drop_first().skip(i - 1) =~= b.skip(i));
    } else {
        assert(a.skip(0) =~= a);
        assert(b.skip(0) =~= b);
    }
}

/// Strict order on the magnitudes of two well-formed decimal keys: zero is
/// least, then the decimal point position decides, then the digit strings.
pub open spec fn mag_lt(a: DecV, b: DecV) -> bool {
    ||| (a.digits.len() == 0 && b.digits.len() > 0)
    ||| (a.digits.len() > 0 && b.digits.len() > 0 && (a.point < b.point || (a.point == b.point
        && digits_lt(a.digits, b.digits))))
}

/// Strict numeric order on well-formed decimal keys.
pub open spec fn dec_lt(a: DecV, b: DecV) -> bool {
    if a.neg != b.neg {
        a.neg
    } else if !a.neg {
        mag_lt(a, b)
    } else {
        mag_lt(b, a)
    }
}

/// Rank of a float value in the model order.
pub open spec fn float_rank(f: FloatV) -> int {
    match f {
        FloatV::NegInf => 0,
        FloatV::Num(_) => 1,
        FloatV::PosInf => 2,
        FloatV::NaN => 3,
    }
}

/// Strict order on float values.
pub open spec fn float_lt(a: FloatV, b: FloatV) -> bool {
    if float_rank(a) != float_rank(b) {
        float_rank(a) < float_rank(b)
    } else {
        match (a, b) {
            (FloatV::Num(x), FloatV::Num(y)) => dec_lt(x, y),
            _ => false,
        }
    }
}

/// Three-way comparison of digit strings: `0` smaller, `1` equal, `2`
/// greater.
fn digits_cmp(a: &Vec<u8>, b: &Vec<u8>) -> (r: u8)
    ensures
        (r == 0) == digits_lt(a@, b@),
        (r == 1) == (a@ == b@),
        (r == 2) == digits_lt(b@, a@),
        r == 0 || r == 1 || r == 2,
{
    let mut i: usize = 0;
    let an = a.len();
    let bn = b.len();
    let n = if an < bn {
        an
    } else {
        bn
    };
    while i < n
        invariant
            0 <= i <= n,
            n == if a@.len() < b@.len() {
                a@.len()
            } else {
                b@.len()
            },
            forall|k: int| 0 <= k < i ==> a@[k] == b@[k],
        decreases n - i,
    {
        let ca = a[i];
        let cb = b[i];
        if ca != cb {
            proof {
                lemma_digits_skip(a@, b@, i as int);
                lemma_digits_skip(b@, a@, i as int);
                assert(a@.skip(i as int)[0] == a@[i as int]);
                assert(b@.skip(i as int)[0] == b@[i as int]);
                assert(a@ != b@);
            }
            if ca < cb {
                return 0;
            } else {
                return 2;
            }
        }
        i = i + 1;
    }
    proof {
        lemma_digits_skip(a@, b@, n as int);
        lemma_digits_skip(b@, a@, n as int);
        if a@.len() == b@.len() {
            assert(a@ =~= b@);
        } else {
            assert(a@ != b@) by {
                assert(a@.len() != b@.len());
            }
        }
    }
    if an == bn {
        1
    } else if an < bn {
        proof {
            assert(a@.skip(n as int).len() == 0 && b@.skip(n as int).len() > 0);
        }
        0
    } else {
        proof {
            assert(b@.skip(n as int).len() == 0 && a@.skip(n as int).len() > 0);
        }
        2
    }
}

/// Three-way numeric comparison of two well-formed decimal keys.
fn dec_cmp(a: &DecKey, b: &DecKey) -> (r: u8)
    requires
        wf_dec(a@),
        wf_dec(b@),
    ensures
        (r == 0) == dec_lt(a@, b@),
        (r == 1) == (a@ == b@),
        (r == 2) == dec_lt(b@, a@),
        r == 0 || r == 1 || r == 2,
{
    if a.neg != b.neg {
        if a.neg {
            return 0;
        } else {
            return 2;
        }
    }
    // magnitude comparison
    let mag: u8 = if a.digits.len() == 0 && b.digits.len() == 0 {
        1
    } else if a.digits.len() == 0 {
        0
    } else if b.digits.len() == 0 {
        2
    } else if a.point < b.point {
        0
    } else if a.point > b.point {
        2
    } else {
        digits_cmp(&a.digits, &b.digits)
    };
    proof {
        if mag == 1 {
            assert(a@.digits =~= b@.digits);
            assert(a@.point == b@.point);
            assert(a@ == b@);
        }
    }
    if a.neg {
        if mag == 0 {
            2
        } else if mag == 2 {
            0
        } else {
            1
        }
    } else {
        mag
    }
}

/// Three-way comparison of two well-formed float values in the model order.
pub fn float_cmp(a: &FloatVal, b: &FloatVal) -> (r: u8)
    requires
        wf_float(a@),
        wf_float(b@),
    ensures
        (r == 0) == float_lt(a@, b@),
        (r == 1) == (a@ == b@),
        (r == 2) == float_lt(b@, a@),
        r == 0 || r == 1 || r == 2,
{
    let ra: u8 = match a {
        FloatVal::NegInf => 0,
        FloatVal::Num(_) => 1,
        FloatVal::PosInf => 2,
        FloatVal::NaN => 3,
    };
    let rb: u8 = match b {
        FloatVal::NegInf => 0,
        FloatVal::Num(_) => 1,
        FloatVal::PosInf => 2,
        FloatVal::NaN => 3,
    };
    if ra != rb {
        if ra < rb {
            return 0;
        } else {
            return 2;
        }
    }
    match (a, b) {
        (FloatVal::Num(x), FloatVal::Num(y)) => dec_cmp(x, y),
        _ => 1,
    }
}

/// First position at or after `i` whose character is not a digit.
pub open spec fn digits_end(s: Seq<char>, i: int) -> int
    decreases s.len() - i,
{
    if i < 0 || i >= s.len() || !is_digit(s[i]) {
        i
    } else {
        digits_end(s, i + 1)
    }
}

/// What `digits_end` designates: the end of the run of digits at `i`.
pub proof fn lemma_digits_end_props(s: Seq<char>, i: int)
    requires
        0 <= i <= s.len(),
    ensures
        i <= digits_end(s, i) <= s.len(),
        forall|k: int| i <= k < digits_end(s, i) ==> is_digit(#[trigger] s[k]),
        digits_end(s, i) < s.len() ==> !is_digit(s[digits_end(s, i)]),
    decreases s.len() - i,
{
    if i < s.len() && is_digit(s[i]) {
        lemma_digits_end_props(s, i + 1);
    }
}

/// A position that ends a digit run beginning at `i` is `digits_end`.
pub proof fn lemma_digits_end_unique(s: Seq<char>, i: int, e: int)
    requires
        0 <= i <= e <= s.len(),
        forall|k: int| i <= k < e ==> is_digit(#[trigger] s[k]),
        e < s.len() ==> !is_digit(s[e]),
    ensures
        digits_end(s, i) == e,
    decreases e - i,
{
    if i < e {
        lemma_digits_end_unique(s, i + 1, e);
    }
}

/// Exponent clamp: exponents beyond this magnitude compare equal, far past
/// the finite range of a 64-bit float.
pub open spec fn sat_exp() -> int {
    1000000000000000000000000000000
}

/// Value of an exponent suffix starting at `p` of `t`: an optional sign,
/// then one or more digits reaching the end of `t`, the magnitude clamped
/// at `sat_exp()`.
pub open spec fn exp_parse_spec(t: Seq<char>, p: int) -> Option<int> {
    let en = p < t.len() && t[p] == '-';
    let d0 = if p < t.len() && (t[p] == '+' || t[p] == '-') {
        p + 1
    } else {
        p
    };
    let de = digits_end(t, d0);
    if de != t.len() || de == d0 {
        Option::None
    } else {
        let dv = digits_val(t.subrange(d0, de));
        let v = if dv > sat_exp() {
            sat_exp()
        } else {
            dv
        };
        Option::Some(
            if en {
                -v
            } else {
                v
            },
        )
    }
}

/// Mantissa and decimal point of the number syntax: digits, an optional
/// fraction, an optional exponent. The mantissa is the digit characters
/// with the dot removed; the point is the count of integer digits plus the
/// exponent.
pub open spec fn number_parse_spec(t: Seq<char>) -> Option<(Seq<char>, int)> {
    let ie = digits_end(t, 0);
    let has_dot = ie < t.len() && t[ie] == '.';
    let fe = if has_dot {
        digits_end(t, ie + 1)
    } else {
        ie
    };
    let mantissa = if has_dot {
        t.subrange(0, ie) + t.subrange(ie + 1, fe)
    } else {
        t.subrange(0, ie)
    };
    if mantissa.len() == 0 {
        Option::None
    } else if fe == t.len() {
        Option::Some((mantissa, ie))
    } else if t[fe] == 'e' || t[fe] == 'E' {
        match exp_parse_spec(t, fe + 1) {
            Option::None => Option::None,
            Option::Some(e) => Option::Some((mantissa, ie + e)),
        }
    } else {
        Option::None
    }
}

/// Count of leading `'0'` characters.
pub open spec fn leading_zeros(s: Seq<char>) -> int
    decreases s.len(),
{
    if s.len() == 0 || s[0] != '0' {
        0
    } else {
        1 + leading_zeros(s.drop_first())
    }
}

/// Count of trailing `'0'` characters.
pub open spec fn trailing_zeros(s: Seq<char>) -> int
    decreases s.len(),
{
    if s.len() == 0 || s[s.len() - 1] != '0' {
        0
    } else {
        1 + trailing_zeros(s.drop_last())
    }
}

/// A prefix of zeros ended by a non-zero is the leading-zero count.
pub proof fn lemma_leading_zeros_unique(s: Seq<char>, k: int)
    requires
        0 <= k <= s.len(),
        forall|j: int| 0 <= j < k ==> s[j] == '0',
        k < s.len() ==> s[k] != '0',
    ensures
        leading_zeros(s) == k,
    decreases k,
{
    if k > 0 {
        assert(s[0] == '0');
        assert(forall|j: int| 0 <= j < k - 1 ==> #[trigger] s.drop_first()[j] == '0');
        if k - 1 < s.drop_first().len() {
            assert(s.drop_first()[k - 1] == s[k]);
        }
        lemma_leading_zeros_unique(s.drop_first(), k - 1);
    }
}

/// A suffix of zeros preceded by a non-zero is the trailing-zero count.
pub proof fn lemma_trailing_zeros_unique(s: Seq<char>, k: int)
    requires
        0 <= k <= s.len(),
        forall|j: int| s.len() - k <= j < s.len() ==> s[j] == '0',
        k < s.len() ==> s[s.len() - k - 1] != '0',
    ensures
        trailing_zeros(s) == k,
    decreases k,
{
    if k > 0 {
        assert(s[s.len() - 1] == '0');
        let t = s.drop_last();
        assert(forall|j: int| t.len() - (k - 1) <= j < t.len() ==> #[trigger] t[j] == '0');
        if k - 1 < t.len() {
            assert(t[t.len() - (k - 1) - 1] == s[s.len() - k - 1]);
        }
        lemma_trailing_zeros_unique(t, k - 1);
    }
}

/// Digit characters as digit values.
pub open spec fn to_digit_vals(s: Seq<char>) -> Seq<u8> {
    s.map(|i: int, c: char| (c as int - '0' as int) as u8)
}

/// Canonical decimal key of a parsed mantissa: leading and trailing zeros
/// stripped, the point adjusted for the stripped leading zeros, and zero
/// itself in its one canonical form.
pub open spec fn norm_dec(neg: bool, ds: Seq<char>, point: int) -> DecV {
    let lz = leading_zeros(ds);
    if lz == ds.len() {
        DecV { neg: false, digits: Seq::empty(), point: 0 }
    } else {
        let tz = trailing_zeros(ds);
        DecV {
            neg,
            digits: to_digit_vals(ds.subrange(lz, ds.len() - tz)),
            point: point - lz,
        }
    }
}

/// Result of reading a float literal, as the declared `Float` and `Double`
/// field kinds require: an optional sign, then `inf`, `infinity` or `nan`
/// (case-insensitive), or a decimal number with an optional fraction and
/// exponent.
pub open spec fn float_parse_spec(s: Seq<char>) -> Option<FloatV> {
    let neg = s.len() > 0 && s[0] == '-';
    let t = if s.len() > 0 && (s[0] == '-' || s[0] == '+') {
        s.drop_first()
    } else {
        s
    };
    let lt = lower_seq(t);
    if lt == seq!['i', 'n', 'f'] || lt == seq!['i', 'n', 'f', 'i', 'n', 'i', 't', 'y'] {
        Option::Some(
            if neg {
                FloatV::NegInf
            } else {
                FloatV::PosInf
            },
        )
    } else if lt == seq!['n', 'a', 'n'] {
        Option::Some(FloatV::NaN)
    } else {
        match number_parse_spec(t) {
            Option::None => Option::None,
            Option::Some((m, p)) => Option::Some(FloatV::Num(norm_dec(neg, m, p))),
        }
    }
}

/// A normalized key of an all-digits mantissa is well formed.
pub proof fn lemma_norm_dec_wf(neg: bool, ds: Seq<char>, point: int)
    requires
        all_digits(ds),
    ensures
        wf_dec(norm_dec(neg, ds, point)),
{
    let lz = leading_zeros(ds);
    lemma_leading_zeros_props(ds);
    if lz == ds.len() {
    } else {
        let tz = trailing_zeros(ds);
        lemma_trailing_zeros_props(ds);
        assert(ds[lz] != '0');
        // the non-zero digit at lz bounds the trailing run
        assert(tz <= ds.len() - 1 - lz) by {
            if tz > ds.len() - 1 - lz {
                assert(ds.len() - tz <= lz < ds.len());
                assert(ds[lz] == '0');
            }
        }
        let core = ds.subrange(lz, ds.len() - tz);
        assert(core.len() > 0);
        assert(core[0] == ds[lz]);
        assert(core[core.len() - 1] == ds[ds.len() - tz - 1]);
        assert(ds[ds.len() - tz - 1] != '0');
        let dv = to_digit_vals(core);
        assert forall|k: int| 0 <= k < dv.len() implies 0 <= #[trigger] dv[k] <= 9 by {
            assert(is_digit(core[k]));
        }
        assert(dv[0] != 0) by {
            assert(is_digit(core[0]) && core[0] != '0');
        }
        assert(dv[dv.len() - 1] != 0) by {
            assert(is_digit(core[core.len() - 1]) && core[core.len() - 1] != '0');
        }
    }
}

/// Executable test for a digit.
fn is_digit_exec(c: char) -> (r: bool)
    ensures
        r == is_digit(c),
{
    '0' <= c && c <= '9'
}

/// Executable test for a digit at an index of a vector.
fn is_digit_at(v: &Vec<char>, i: usize) -> (r: bool)
    requires
        i < v@.len(),
    ensures
        r == is_digit(v@[i as int]),
{
    is_digit_exec(v[i])
}

/// Scans the digit run beginning at `from`.
fn scan_digits(v: &Vec<char>, from: usize) -> (e: usize)
    requires
        from as int <= v@.len(),
    ensures
        from <= e,
        e as int == digits_end(v@, from as int),
        e as int <= v@.len(),
{
    let mut e = from;
    while e < v.len() && is_digit_at(v, e)
        invariant
            from <= e <= v@.len(),
            forall|k: int| from <= k < e ==> is_digit(#[trigger] v@[k]),
        decreases v@.len() - e,
    {
        e = e + 1;
    }
    proof {
        lemma_digits_end_unique(v@, from as int, e as int);
    }
    e
}

/// Value of a digit run, clamped at `sat_exp()`.
fn exp_digits_value(v: &Vec<char>, from: usize, to: usize) -> (r: i128)
    requires
        from <= to,
        to as int <= v@.len(),
        forall|k: int| from <= k < to ==> is_digit(#[trigger] v@[k]),
    ensures
        ({
            let dv = digits_val(v@.subrange(from as int, to as int));
            r == if dv > sat_exp() {
                sat_exp()
            } else {
                dv
            }
        }),
        0 <= r <= sat_exp(),
{
    let satc: i128 = 1_000_000_000_000_000_000_000_000_000_000;
    proof {
        assert(satc == sat_exp());
    }
    let mut r: i128 = 0;
    let mut i: usize = from;
    while i < to
        invariant
            from <= i <= to,
            to as int <= v@.len(),
            satc == sat_exp(),
            forall|k: int| from <= k < to ==> is_digit(#[trigger] v@[k]),
            ({
                let pre = v@.subrange(from as int, i as int);
                (digits_val(pre) <= satc && r == digits_val(pre)) || (digits_val(pre) > satc && r
                    == satc)
            }),
            0 <= r <= satc,
        decreases to - i,
    {
        let c = v[i];
        let d: i128 = (c as u32 as i128) - 48;
        proof {
            let pre = v@.subrange(from as int, i as int);
            let pre2 = v@.subrange(from as int, i + 1);
            assert(pre2.drop_last() =~= pre);
            assert(pre2.last() == v@[i as int]);
            assert(is_digit(v@[i as int]));
            assert(digits_val(pre2) == digits_val(pre) * 10 + digit_val(v@[i as int]));
            assert(d == digit_val(v@[i as int]));
            lemma_digits_val_nonneg(pre);
        }
        r = r * 10 + d;
        if r > satc {
            r = satc;
        }
        i = i + 1;
    }
    proof {
        lemma_digits_val_nonneg(v@.subrange(from as int, to as int));
    }
    r
}

/// Splits the optional sign off a literal.
fn split_sign(s: &Vec<char>) -> (r: (bool, Vec<char>))
    ensures
        r.0 == (s@.len() > 0 && s@[0] == '-'),
        r.1@ == (if s@.len() > 0 && (s@[0] == '-' || s@[0] == '+') {
            s@.drop_first()
        } else {
            s@
        }),
{
    let n = s.len();
    let mut start: usize = 0;
    let mut neg = false;
    if n > 0 && (s[0] == '-' || s[0] == '+') {
        neg = s[0] == '-';
        start = 1;
    }
    let mut rest: Vec<char> = Vec::new();
    let mut i: usize = start;
    while i < n
        invariant
            start <= i <= n,
            n == s@.len(),
            rest@ =~= s@.subrange(start as int, i as int),
        decreases n - i,
    {
        rest.push(s[i]);
        proof {
            assert(rest@ =~= s@.subrange(start as int, i + 1));
        }
        i = i + 1;
    }
    proof {
        if s@.len() > 0 && (s@[0] == '-' || s@[0] == '+') {
            assert(rest@ =~= s@.drop_first());
        } else {
            assert(rest@ =~= s@);
        }
    }
    (neg, rest)
}

/// Recognizes the special words: `1` for `inf`/`infinity`, `2` for `nan`,
/// `0` otherwise, case-insensitively.
fn match_special(rest: &Vec<char>) -> (r: u8)
    ensures
        (r == 1) == (lower_seq(rest@) == seq!['i', 'n', 'f'] || lower_seq(rest@) == seq![
            'i',
            'n',
            'f',
            'i',
            'n',
            'i',
            't',
            'y',
        ]),
        (r == 2) == (lower_seq(rest@) == seq!['n', 'a', 'n']),
        r == 0 || r == 1 || r == 2,
{
    let low = crate::text::lower_chars(rest);
    let mut inf_v: Vec<char> = Vec::new();
    inf_v.push('i');
    inf_v.push('n');
    inf_v.push('f');
    proof {
        assert(inf_v@ =~= seq!['i', 'n', 'f']);
    }
    let mut infinity_v: Vec<char> = Vec::new();
    infinity_v.push('i');
    infinity_v.push('n');
    infinity_v.push('f');
    infinity_v.push('i');
    infinity_v.push('n');
    infinity_v.push('i');
    infinity_v.push('t');
    infinity_v.push('y');
    proof {
        assert(infinity_v@ =~= seq!['i', 'n', 'f', 'i', 'n', 'i', 't', 'y']);
    }
    let mut nan_v: Vec<char> = Vec::new();
    nan_v.push('n');
    nan_v.push('a');
    nan_v.push('n');
    proof {
        assert(nan_v@ =~= seq!['n', 'a', 'n']);
    }
    if crate::text::chars_eq(&low, &inf_v) || crate::text::chars_eq(&low, &infinity_v) {
        1
    } else if crate::text::chars_eq(&low, &nan_v) {
        2
    } else {
        0
    }
}

/// Reads the number syntax of `rest`: the mantissa digit characters and the
/// decimal point position.
fn parse_number_part(rest: &Vec<char>) -> (r: Option<(Vec<char>, i128)>)
    ensures
        match r {
            Option::Some(mp) => {
                &&& number_parse_spec(rest@) == Option::Some((mp.0@, mp.1 as int))
                &&& all_digits(mp.0@)
                &&& -sat_exp() <= mp.1 as int <= sat_exp() + 0x1_0000_0000_0000_0000
            },
            Option::None => number_parse_spec(rest@) is None,
        },
{
    let rn = rest.len();
    let ie = scan_digits(rest, 0);
    let has_dot = ie < rn && rest[ie] == '.';
    let fe = if has_dot {
        scan_digits(rest, ie + 1)
    } else {
        ie
    };
    let mut mant: Vec<char> = Vec::new();
    let mut k: usize = 0;
    while k < ie
        invariant
            0 <= k <= ie,
            ie as int <= rest@.len(),
            mant@ =~= rest@.subrange(0, k as int),
        decreases ie - k,
    {
        mant.push(rest[k]);
        proof {
            assert(mant@ =~= rest@.subrange(0, k + 1));
        }
        k = k + 1;
    }
    if has_dot {
        let mut k2: usize = ie + 1;
        while k2 < fe
            invariant
                ie + 1 <= k2 <= fe,
                fe as int <= rest@.len(),
                ie as int <= rest@.len(),
                mant@ =~= rest@.subrange(0, ie as int) + rest@.subrange(ie + 1, k2 as int),
            decreases fe - k2,
        {
            mant.push(rest[k2]);
            proof {
                assert(mant@ =~= rest@.subrange(0, ie as int) + rest@.subrange(ie + 1, k2 + 1));
            }
            k2 = k2 + 1;
        }
    } else {
        proof {
            assert(mant@ =~= rest@.subrange(0, ie as int));
        }
    }
    let ghost spec_mantissa = if (ie as int) < rest@.len() && rest@[ie as int] == '.' {
        rest@.subrange(0, ie as int) + rest@.subrange(ie as int + 1, digits_end(rest@, ie as int + 1))
    } else {
        rest@.subrange(0, ie as int)
    };
    proof {
        assert(mant@ =~= spec_mantissa);
        lemma_digits_end_props(rest@, 0);
        if has_dot {
            lemma_digits_end_props(rest@, ie as int + 1);
        }
        assert(all_digits(mant@));
    }
    if mant.len() == 0 {
        return Option::None;
    }
    let exp: i128;
    if fe == rn {
        exp = 0;
    } else {
        let ec = rest[fe];
        if !(ec == 'e' || ec == 'E') {
            return Option::None;
        }
        let p = fe + 1;
        let mut en = false;
        let mut d0 = p;
        if p < rn && (rest[p] == '+' || rest[p] == '-') {
            en = rest[p] == '-';
            d0 = p + 1;
        }
        let de = scan_digits(rest, d0);
        if de != rn || de == d0 {
            proof {
                assert(exp_parse_spec(rest@, p as int) is None);
            }
            return Option::None;
        }
        proof {
            lemma_digits_end_props(rest@, d0 as int);
        }
        let ev = exp_digits_value(rest, d0, de);
        exp = if en {
            -ev
        } else {
            ev
        };
        proof {
            assert(exp_parse_spec(rest@, p as int) == Option::Some(exp as int));
        }
    }
    let point0: i128 = (ie as i128) + exp;
    proof {
        assert(number_parse_spec(rest@) == Option::Some((spec_mantissa, point0 as int)));
    }
    Option::Some((mant, point0))
}

/// Builds the canonical decimal key of a parsed mantissa.
fn normalize_key(neg: bool, mant: &Vec<char>, point0: i128) -> (dk: DecKey)
    requires
        all_digits(mant@),
        -sat_exp() <= point0 as int <= sat_exp() + 0x1_0000_0000_0000_0000,
    ensures
        dk@ == norm_dec(neg, mant@, point0 as int),
        wf_dec(dk@),
{
    let mn = mant.len();
    let mut lz: usize = 0;
    while lz < mn && char_at_is_zero(mant, lz)
        invariant
            0 <= lz <= mn,
            mn == mant@.len(),
            forall|j: int| 0 <= j < lz ==> mant@[j] == '0',
        decreases mn - lz,
    {
        lz = lz + 1;
    }
    proof {
        lemma_leading_zeros_unique(mant@, lz as int);
        lemma_norm_dec_wf(neg, mant@, point0 as int);
    }
    if lz == mn {
        let dk = DecKey { neg: false, digits: Vec::new(), point: 0 };
        proof {
            assert(dk@.digits =~= norm_dec(neg, mant@, point0 as int).digits);
            assert(dk@ == norm_dec(neg, mant@, point0 as int));
        }
        return dk;
    }
    let mut tz: usize = 0;
    while tz < mn && char_at_is_zero(mant, mn - 1 - tz)
        invariant
            0 <= tz <= mn,
            mn == mant@.len(),
            forall|j: int| mn - tz <= j < mn ==> mant@[j] == '0',
        decreases mn - tz,
    {
        tz = tz + 1;
    }
    proof {
        lemma_trailing_zeros_unique(mant@, tz as int);
        // the non-zero digit at lz bounds the trailing run
        assert(tz as int <= mn - 1 - lz) by {
            if tz as int > mn - 1 - lz {
                assert(mn - tz <= lz < mn);
                assert(mant@[lz as int] == '0');
            }
        }
    }
    let mut digits: Vec<u8> = Vec::new();
    let hi = mn - tz;
    let mut k3: usize = lz;
    while k3 < hi
        invariant
            lz <= k3 <= hi,
            hi as int <= mant@.len(),
            forall|j: int| 0 <= j < mant@.len() ==> is_digit(#[trigger] mant@[j]),
            digits@ =~= to_digit_vals(mant@.subrange(lz as int, k3 as int)),
        decreases hi - k3,
    {
        let c = mant[k3];
        proof {
            assert(is_digit(mant@[k3 as int]));
        }
        let d: u8 = (c as u32 as u8) - 48;
        digits.push(d);
        proof {
            assert(digits@ =~= to_digit_vals(mant@.subrange(lz as int, k3 + 1)));
        }
        k3 = k3 + 1;
    }
    let pf: i128 = point0 - (lz as i128);
    let dk = DecKey { neg, digits, point: pf };
    proof {
        let nd = norm_dec(neg, mant@, point0 as int);
        assert(dk@.digits =~= nd.digits);
        assert(dk@ == nd);
    }
    dk
}

/// Whether the character at `i` is `'0'`.
fn char_at_is_zero(v: &Vec<char>, i: usize) -> (r: bool)
    requires
        i < v@.len(),
    ensures
        r == (v@[i as int] == '0'),
{
    v[i] == '0'
}

/// Reads a float literal into its exact decimal model value.
pub fn parse_float(s: &Vec<char>) -> (r: Option<FloatVal>)
    ensures
        match r {
            Option::Some(f) => float_parse_spec(s@) == Option::Some(f@) && wf_float(f@),
            Option::None => float_parse_spec(s@) is None,
        },
{
    let (neg, rest) = split_sign(s);
    let sp = match_special(&rest);
    if sp == 1 {
        if neg {
            return Option::Some(FloatVal::NegInf);
        } else {
            return Option::Some(FloatVal::PosInf);
        }
    }
    if sp == 2 {
        return Option::Some(FloatVal::NaN);
    }
    match parse_number_part(&rest) {
        Option::None => Option::None,
        Option::Some(mp) => {
            let dk = normalize_key(neg, &mp.0, mp.1);
            proof {
                assert(float_parse_spec(s@) == Option::Some(FloatV::Num(dk@)));
            }
            Option::Some(FloatVal::Num(dk))
        },
    }
}


/// The first `leading_zeros` characters are zeros, and the next one is not.
pub proof fn lemma_leading_zeros_props(s: Seq<char>)
    ensures
        0 <= leading_zeros(s) <= s.len(),
        forall|j: int| 0 <= j < leading_zeros(s) ==> s[j] == '0',
        leading_zeros(s) < s.len() ==> s[leading_zeros(s)] != '0',
    decreases s.len(),
{
    if s.len() > 0 && s[0] == '0' {
        lemma_leading_zeros_props(s.drop_first());
        assert forall|j: int| 0 <= j < leading_zeros(s) implies s[j] == '0' by {
            if j > 0 {
                assert(s.drop_first()[j - 1] == '0');
            }
        }
        if leading_zeros(s) < s.len() {
            assert(s.drop_first()[leading_zeros(s) - 1] != '0');
        }
    }
}

/// The last `trailing_zeros` characters are zeros, and the one before is
/// not.
pub proof fn lemma_trailing_zeros_props(s: Seq<char>)
    ensures
        0 <= trailing_zeros(s) <= s.len(),
        forall|j: int| s.len() - trailing_zeros(s) <= j < s.len() ==> s[j] == '0',
        trailing_zeros(s) < s.len() ==> s[s.len() - trailing_zeros(s) - 1] != '0',
    decreases s.len(),
{
    if s.len() > 0 && s[s.len() - 1] == '0' {
        let t = s.drop_last();
        lemma_trailing_zeros_props(t);
        assert forall|j: int| s.len() - trailing_zeros(s) <= j < s.len() implies s[j] == '0' by {
            if j < s.len() - 1 {
                assert(t[j] == '0');
            }
        }
        if trailing_zeros(s) < s.len() {
            assert(t[t.len() - trailing_zeros(t) - 1] != '0');
        }
    }
}

} // verus!
