//! Decimal numbers of filter expressions, held in millionths.
use vstd::prelude::*;
use crate::packet::{digit_val, is_digit};
use crate::text::{find_char, index_of, is_first, slice_vec};

verus! {

/// Millionths in one whole.
pub const SCALE: i64 = 1_000_000;

/// Digits a value in millionths may have before its decimal point.
pub const MAX_DIGITS: usize = 15;

/// Every character of `s` is an ASCII digit.
pub open spec fn all_digits(s: Seq<char>) -> bool {
    forall|i: int| 0 <= i < s.len() ==> is_digit(s[i])
}

/// The number that a string of digits writes in base ten.
pub open spec fn digits_value(s: Seq<char>) -> int
    decreases s.len(),
{
    if s.len() == 0 {
        0
    } else {
        digits_value(s.drop_last()) * 10 + digit_val(s.last())
    }
}

/// Ten to the power `n`.
pub open spec fn pow10(n: nat) -> int
    decreases n,
{
    if n == 0 {
        1
    } else {
        10 * pow10((n - 1) as nat)
    }
}

/// `s` without its leading zeros.
pub open spec fn strip_zeros(s: Seq<char>) -> Seq<char>
    decreases s.len(),
{
    if s.len() > 0 && s[0] == '0' {
        strip_zeros(s.drop_first())
    } else {
        s
    }
}

/// The first position of `e` or `E` in `s`, if any.
pub open spec fn exp_index(s: Seq<char>) -> Option<int>
    decreases s.len(),
{
    if s.len() == 0 {
        None
    } else if s[0] == 'e' || s[0] == 'E' {
        Some(0)
    } else {
        match exp_index(s.drop_first()) {
            Some(i) => Some(i + 1),
            None => None,
        }
    }
}

/// The value of an exponent: an optional sign, then one digit at least.
pub open spec fn exponent_value(x: Seq<char>) -> Option<int> {
    let neg = x.len() > 0 && x[0] == '-';
    let d = if x.len() > 0 && (x[0] == '-' || x[0] == '+') { x.drop_first() } else { x };
    if d.len() >= 1 && all_digits(d) {
        Some(if neg { -digits_value(d) } else { digits_value(d) })
    } else {
        None
    }
}

/// The digits before and after the point of a mantissa `WHOLE[.FRAC]`
/// with one digit at least.
pub open spec fn mantissa_parts(m: Seq<char>) -> Option<(Seq<char>, Seq<char>)> {
    let (whole, frac) = match index_of(m, '.') {
        Some(d) => (m.subrange(0, d), m.subrange(d + 1, m.len() as int)),
        None => (m, Seq::<char>::empty()),
    };
    if whole.len() + frac.len() >= 1 && all_digits(whole) && all_digits(frac) {
        Some((whole, frac))
    } else {
        None
    }
}

/// The whole part of `sig` (digits with no leading zero) with the decimal
/// point moved `e` places to the right, where it has at most `MAX_DIGITS`
/// digits: digits moved past the point are dropped.
pub open spec fn scaled_value(sig: Seq<char>, e: int) -> Option<int> {
    if sig.len() == 0 {
        Some(0)
    } else if e >= 0 {
        if sig.len() + e > 15 {
            None
        } else {
            Some(digits_value(sig) * pow10(e as nat))
        }
    } else if sig.len() + e <= 0 {
        Some(0)
    } else if sig.len() + e > 15 {
        None
    } else {
        Some(digits_value(sig.subrange(0, sig.len() + e)))
    }
}

/// The value in millionths, rounded toward zero, of an unsigned number
/// `WHOLE[.FRAC][(e|E)[+|-]EXP]` with one digit at least in the mantissa;
/// `None` where the value does not fit in `MAX_DIGITS` digits.
pub open spec fn unsigned_value(s: Seq<char>) -> Option<int> {
    let (m, x) = match exp_index(s) {
        Some(k) => (s.subrange(0, k), Some(s.subrange(k + 1, s.len() as int))),
        None => (s, None),
    };
    match mantissa_parts(m) {
        None => None,
        Some((whole, frac)) => {
            let ev = match x {
                Some(x) => exponent_value(x),
                None => Some(0),
            };
            match ev {
                None => None,
                Some(ev) => scaled_value(strip_zeros(whole + frac), ev - frac.len() + 6),
            }
        },
    }
}

/// The value in millionths of a number with an optional sign.
pub open spec fn decimal_value(s: Seq<char>) -> Option<int> {
    if s.len() > 0 && s[0] == '-' {
        match unsigned_value(s.drop_first()) {
            Some(v) => Some(-v),
            None => None,
        }
    } else if s.len() > 0 && s[0] == '+' {
        unsigned_value(s.drop_first())
    } else {
        unsigned_value(s)
    }
}

proof fn lemma_pow10_facts(n: nat)
    requires
        n <= 15,
    ensures
        1 <= pow10(n) <= pow10(15),
        pow10(15) == 1_000_000_000_000_000,
        pow10(9) == 1_000_000_000,
        pow10(6) == 1_000_000,
    decreases n,
{
    reveal_with_fuel(pow10, 16);
    if n > 0 {
        lemma_pow10_facts((n - 1) as nat);
    }
}

/// The base-ten value of a string of at most fifteen digits.
fn digits_to_int(s: &Vec<char>) -> (r: i64)
    requires
        s@.len() <= 15,
        all_digits(s@),
    ensures
        r == digits_value(s@),
        0 <= r < pow10(s@.len()),
{
    let mut v: i64 = 0;
    let mut i: usize = 0;
    proof {
        lemma_pow10_facts(0);
        assert(s@.subrange(0, 0) =~= Seq::<char>::empty());
    }
    while i < s.len()
        invariant
            i <= s@.len() <= 15,
            all_digits(s@),
            v == digits_value(s@.subrange(0, i as int)),
            0 <= v < pow10(i as nat),
        decreases s.len() - i,
    {
        let c = s[i];
        proof {
            lemma_pow10_facts((i + 1) as nat);
            assert(s@.subrange(0, i + 1).drop_last() =~= s@.subrange(0, i as int));
            assert(is_digit(c));
        }
        let d = ((c as u32) - 48) as i64;
        v = v * 10 + d;
        i = i + 1;
    }
    assert(s@.subrange(0, s@.len() as int) =~= s@);
    v
}

/// Whether every character of `s` is a digit.
fn all_digits_exec(s: &Vec<char>) -> (r: bool)
    ensures
        r == all_digits(s@),
{
    let mut k: usize = 0;
    while k < s.len()
        invariant
            k <= s@.len(),
            forall|j: int| 0 <= j < k ==> is_digit(s@[j]),
        decreases s.len() - k,
    {
        if !('0' <= s[k] && s[k] <= '9') {
            assert(!is_digit(s@[k as int]));
            return false;
        }
        k = k + 1;
    }
    true
}

/// `s` without its leading zeros.
fn strip_zeros_exec(s: &Vec<char>) -> (r: Vec<char>)
    ensures
        r@ == strip_zeros(s@),
{
    let mut i: usize = 0;
    assert(s@.subrange(0, s@.len() as int) =~= s@);
    while i < s.len() && s[i] == '0'
        invariant
            i <= s@.len(),
            strip_zeros(s@) == strip_zeros(s@.subrange(i as int, s@.len() as int)),
        decreases s.len() - i,
    {
        assert(s@.subrange(i as int, s@.len() as int).drop_first() =~= s@.subrange(
            i + 1,
            s@.len() as int,
        ));
        i = i + 1;
    }
    let r = slice_vec(s, i, s.len());
    if i < s.len() {
        assert(r@[0] == s@[i as int]);
    }
    r
}

/// The first position of `e` or `E` in `s`, if any.
fn exp_index_exec(s: &Vec<char>) -> (r: Option<usize>)
    ensures
        r matches Some(k) ==> exp_index(s@) == Some(k as int) && k < s@.len(),
        r is None ==> exp_index(s@) is None,
{
    let mut i: usize = 0;
    assert(s@.subrange(0, s@.len() as int) =~= s@);
    while i < s.len()
        invariant
            i <= s@.len(),
            exp_index(s@) == match exp_index(s@.subrange(i as int, s@.len() as int)) {
                Some(j) => Some(j + i),
                None => None,
            },
        decreases s.len() - i,
    {
        let ghost t = s@.subrange(i as int, s@.len() as int);
        assert(t[0] == s@[i as int]);
        if s[i] == 'e' || s[i] == 'E' {
            return Some(i);
        }
        assert(t.drop_first() =~= s@.subrange(i + 1, s@.len() as int));
        i = i + 1;
    }
    None
}

/// Cap on the magnitude of an exponent as it is read: past it the value is
/// zero or too large whatever the digits are.
const EXP_CAP: i128 = 1_000_000_000_000_000_000_000_000_000;

/// The value of an exponent, its magnitude capped at `EXP_CAP`.
fn exponent_capped(x: &Vec<char>) -> (r: Option<i128>)
    ensures
        r is None <==> exponent_value(x@) is None,
        r matches Some(v) ==> exponent_value(x@) matches Some(e) && (if -EXP_CAP < e < EXP_CAP {
            v == e
        } else if e >= EXP_CAP {
            v == EXP_CAP
        } else {
            v == -EXP_CAP
        }),
{
    let neg = x.len() > 0 && x[0] == '-';
    let start: usize = if x.len() > 0 && (x[0] == '-' || x[0] == '+') { 1 } else { 0 };
    let d = slice_vec(x, start, x.len());
    assert(d@ =~= if x@.len() > 0 && (x@[0] == '-' || x@[0] == '+') {
        x@.drop_first()
    } else {
        x@
    });
    if d.len() < 1 || !all_digits_exec(&d) {
        return None;
    }
    let mut v: i128 = 0;
    let mut i: usize = 0;
    assert(d@.subrange(0, 0) =~= Seq::<char>::empty());
    while i < d.len()
        invariant
            i <= d@.len(),
            all_digits(d@),
            digits_value(d@.subrange(0, i as int)) >= 0,
            v == if digits_value(d@.subrange(0, i as int)) < EXP_CAP {
                digits_value(d@.subrange(0, i as int))
            } else {
                EXP_CAP as int
            },
        decreases d.len() - i,
    {
        assert(d@.subrange(0, i + 1).drop_last() =~= d@.subrange(0, i as int));
        assert(is_digit(d@[i as int]));
        let dig = ((d[i] as u32) - 48) as i128;
        if v >= EXP_CAP {
            v = EXP_CAP;
        } else {
            v = v * 10 + dig;
            if v >= EXP_CAP {
                v = EXP_CAP;
            }
        }
        i = i + 1;
    }
    assert(d@.subrange(0, d@.len() as int) =~= d@);
    if neg {
        Some(-v)
    } else {
        Some(v)
    }
}

/// `scaled_value` of `sig` moved by `e0 - frac_len + 6` places, where `e0`
/// is an exponent capped at `EXP_CAP`.
fn scale_exec(sig: &Vec<char>, e0: i128, frac_len: usize, e_real: Ghost<int>) -> (r: Option<i64>)
    requires
        all_digits(sig@),
        if -EXP_CAP < e_real@ < EXP_CAP {
            e0 == e_real@
        } else if e_real@ >= EXP_CAP {
            e0 == EXP_CAP
        } else {
            e0 == -EXP_CAP
        },
    ensures
        r matches Some(v) ==> scaled_value(sig@, e_real@ - frac_len + 6) == Some(v as int),
        r is None ==> scaled_value(sig@, e_real@ - frac_len + 6) is None,
        r matches Some(v) ==> 0 <= v < 1_000_000_000_000_000,
{
    let ghost er = e_real@ - frac_len + 6;
    if sig.len() == 0 {
        return Some(0);
    }
    let n = sig.len();
    proof {
        lemma_pow10_facts(15);
    }
    let e: i128 = e0 - (frac_len as i128) + 6;
    if e >= 0 {
        if (n as i128) + e > MAX_DIGITS as i128 {
            return None;
        }
        assert(e == er);
        let base = digits_to_int(sig);
        let mut v: i64 = base;
        let mut k: i128 = 0;
        proof {
            lemma_pow10_facts(n as nat);
        }
        while k < e
            invariant
                0 <= k <= e,
                n + e <= 15,
                n == sig@.len(),
                base == digits_value(sig@),
                0 <= base < pow10(n as nat),
                v == base * pow10(k as nat),
                0 <= v < pow10((n + k) as nat),
            decreases e - k,
        {
            proof {
                lemma_pow10_facts((n + k + 1) as nat);
                assert(pow10((k + 1) as nat) == 10 * pow10(k as nat));
                assert(pow10((n + k + 1) as nat) == 10 * pow10((n + k) as nat));
                assert(base * (10 * pow10(k as nat)) == 10 * (base * pow10(k as nat)))
                    by (nonlinear_arith);
            }
            v = v * 10;
            k = k + 1;
        }
        proof {
            lemma_pow10_facts((n + k) as nat);
        }
        Some(v)
    } else {
        let keep: i128 = (n as i128) + e;
        if keep <= 0 {
            return Some(0);
        }
        if keep > MAX_DIGITS as i128 {
            return None;
        }
        assert(e == er);
        let head = slice_vec(sig, 0, keep as usize);
        assert(all_digits(head@)) by {
            assert forall|j: int| 0 <= j < head@.len() implies is_digit(head@[j]) by {
                assert(head@[j] == sig@[j]);
            }
        }
        proof {
            lemma_pow10_facts(keep as nat);
        }
        Some(digits_to_int(&head))
    }
}

/// The value in millionths of an unsigned number, if it is one.
fn unsigned_to_int(s: &Vec<char>) -> (r: Option<i64>)
    ensures
        r matches Some(v) ==> unsigned_value(s@) == Some(v as int),
        r matches Some(v) ==> 0 <= v < 1_000_000_000_000_000,
        r is None ==> unsigned_value(s@) is None,
{
    let n = s.len();
    let (m, x) = match exp_index_exec(s) {
        Some(k) => {
            assert(k < n);
            (slice_vec(s, 0, k), Some(slice_vec(s, k + 1, n)))
        },
        None => (slice_vec(s, 0, n), None),
    };
    assert(s@.subrange(0, s@.len() as int) =~= s@);
    let ghost mv = m@;
    let (whole, frac) = match find_char(&m, '.') {
        Some(d) => (slice_vec(&m, 0, d), slice_vec(&m, d + 1, m.len())),
        None => (slice_vec(&m, 0, m.len()), Vec::new()),
    };
    assert(m@.subrange(0, m@.len() as int) =~= m@);
    if (whole.len() == 0 && frac.len() == 0) || !all_digits_exec(&whole) || !all_digits_exec(&frac) {
        return None;
    }
    assert(mantissa_parts(mv) == Some((whole@, frac@)));
    let ev: i128 = match &x {
        Some(xv) => match exponent_capped(xv) {
            Some(v) => v,
            None => return None,
        },
        None => 0,
    };
    let ghost e_real: int = match x {
        Some(xv) => exponent_value(xv@)->0,
        None => 0,
    };
    let mut digits = whole;
    let mut t: usize = 0;
    let ghost wv = digits@;
    while t < frac.len()
        invariant
            t <= frac@.len(),
            digits@ == wv + frac@.subrange(0, t as int),
        decreases frac.len() - t,
    {
        digits.push(frac[t]);
        t = t + 1;
        assert(digits@ =~= wv + frac@.subrange(0, t as int));
    }
    assert(frac@.subrange(0, frac@.len() as int) =~= frac@);
    let sig = strip_zeros_exec(&digits);
    proof {
        lemma_strip_digits(digits@);
    }
    scale_exec(&sig, ev, frac.len(), Ghost(e_real))
}

proof fn lemma_strip_digits(s: Seq<char>)
    requires
        all_digits(s),
    ensures
        all_digits(strip_zeros(s)),
    decreases s.len(),
{
    if s.len() > 0 && s[0] == '0' {
        lemma_strip_digits(s.drop_first());
    }
}

/// The value in millionths of `s`, a number with an optional sign and an
/// optional exponent; digits moved past the sixth decimal are dropped.
pub fn parse_decimal(s: &Vec<char>) -> (r: Option<i64>)
    ensures
        r matches Some(v) ==> decimal_value(s@) == Some(v as int),
        r is None ==> decimal_value(s@) is None,
{
    if s.len() > 0 && (s[0] == '-' || s[0] == '+') {
        let rest = slice_vec(s, 1, s.len());
        assert(rest@ =~= s@.drop_first());
        match unsigned_to_int(&rest) {
            Some(v) => {
                if s[0] == '-' {
                    Some(-v)
                } else {
                    Some(v)
                }
            },
            None => None,
        }
    } else {
        unsigned_to_int(s)
    }
}

} // verus!
