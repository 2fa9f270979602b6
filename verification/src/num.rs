//! Decimal numeric tokens and their values in micro-units.
//!
//! A coordinate component is held as an `i64` counting micro-units: the
//! underlying decimal value multiplied by `SCALE`.  A numeric token is an
//! optional sign, digits, an optional fractional part introduced by `.` or
//! `,`, and an optional exponent.  Its value is truncated toward zero to
//! micro-unit precision; tokens whose magnitude does not fit below
//! `MAX_SCALED` micro-units have no value here and are skipped by the
//! extractor.
use vstd::prelude::*;

verus! {

use vstd::arithmetic::div_mod::lemma_basic_div;
use vstd::arithmetic::div_mod::lemma_div_pos_is_pos;
use vstd::arithmetic::div_mod::lemma_fundamental_div_mod;
use vstd::arithmetic::div_mod::lemma_mod_bound;

/// Micro-units per whole unit.
pub const SCALE: i64 = 1000000;

/// Exclusive bound on the magnitude of a representable scaled value.
pub const MAX_SCALED: i64 = 1000000000000000000;

/// Exclusive bound on a token's mantissa (the integer made of its digits).
pub const DIGITS_CAP: u128 = 10000000000000000000;

/// Saturation bound when reading a token's exponent digits.
pub const EXP_CAP: u128 = 1000000000000000000000000000000;

pub open spec fn is_digit(c: char) -> bool {
    '0' <= c && c <= '9'
}

pub open spec fn digit_val(c: char) -> int {
    c as int - 48
}

pub open spec fn is_sign(c: char) -> bool {
    c == '+' || c == '-'
}

pub open spec fn is_sep(c: char) -> bool {
    c == '.' || c == ','
}

pub open spec fn is_exp_mark(c: char) -> bool {
    c == 'e' || c == 'E'
}

/// Length of the run of digit characters starting at position `i`.
pub open spec fn digit_run(s: Seq<char>, i: int) -> int
    decreases s.len() - i when i <= s.len()
{
    if 0 <= i && i < s.len() && is_digit(s[i]) {
        1 + digit_run(s, i + 1)
    } else {
        0
    }
}

/// The integer denoted by a sequence of digit characters (most significant first).
pub open spec fn digits_val(s: Seq<char>) -> int
    decreases s.len()
{
    if s.len() == 0 {
        0
    } else {
        10 * digits_val(s.drop_last()) + digit_val(s.last())
    }
}

pub open spec fn pow10(e: int) -> int
    decreases e when e >= 0
{
    if e <= 0 {
        1
    } else {
        10 * pow10(e - 1)
    }
}

pub proof fn lemma_pow10_pos(e: int)
    requires
        e >= 0,
    ensures
        pow10(e) >= 1,
    decreases e,
{
    if e > 0 {
        lemma_pow10_pos(e - 1);
    }
}

pub proof fn lemma_pow10_mono(a: int, b: int)
    requires
        0 <= a <= b,
    ensures
        pow10(a) <= pow10(b),
    decreases b,
{
    if a < b {
        lemma_pow10_mono(a, b - 1);
        lemma_pow10_pos(b - 1);
    }
}

pub proof fn lemma_digit_run(s: Seq<char>, i: int)
    requires
        0 <= i <= s.len(),
    ensures
        0 <= digit_run(s, i),
        i + digit_run(s, i) <= s.len(),
        forall|k: int| i <= k < i + digit_run(s, i) ==> is_digit(s[k]),
    decreases s.len() - i,
{
    if i < s.len() && is_digit(s[i]) {
        lemma_digit_run(s, i + 1);
    }
}

proof fn lemma_digits_val_nonneg(s: Seq<char>)
    requires
        forall|k: int| 0 <= k < s.len() ==> is_digit(s[k]),
    ensures
        digits_val(s) >= 0,
    decreases s.len(),
{
    if s.len() > 0 {
        lemma_digits_val_nonneg(s.drop_last());
    }
}

/// Position just past the optional sign at `i`.
pub open spec fn sign_len(s: Seq<char>, i: int) -> int {
    if 0 <= i && i < s.len() && is_sign(s[i]) {
        1
    } else {
        0
    }
}

/// Number of integer-part digits of a token starting at `i` (0: no token).
pub open spec fn int_len(s: Seq<char>, i: int) -> int {
    digit_run(s, i + sign_len(s, i))
}

/// Length of the fractional part (separator included) starting at `j`.
pub open spec fn frac_len(s: Seq<char>, j: int) -> int {
    if 0 <= j && j < s.len() && is_sep(s[j]) && digit_run(s, j + 1) > 0 {
        1 + digit_run(s, j + 1)
    } else {
        0
    }
}

/// Length of the exponent part (marker and sign included) starting at `k`.
pub open spec fn exp_len(s: Seq<char>, k: int) -> int {
    if 0 <= k && k < s.len() && is_exp_mark(s[k]) {
        let es: int = if k + 1 < s.len() && is_sign(s[k + 1]) {
            1
        } else {
            0
        };
        let ed: int = digit_run(s, k + 1 + es);
        if ed > 0 {
            1 + es + ed
        } else {
            0
        }
    } else {
        0
    }
}

/// Total length of the numeric token starting at `i`, 0 if none starts here.
pub open spec fn token_len_at(s: Seq<char>, i: int) -> int {
    if int_len(s, i) == 0 {
        0
    } else {
        let j: int = i + sign_len(s, i) + int_len(s, i);
        let k: int = j + frac_len(s, j);
        (k + exp_len(s, k)) - i
    }
}

/// Count of fractional digits of the part starting at `j` (separator excluded).
pub open spec fn frac_digits(s: Seq<char>, j: int) -> int {
    if frac_len(s, j) > 0 {
        frac_len(s, j) - 1
    } else {
        0
    }
}

/// The integer made of the token's digits, fractional digits appended to the
/// integer-part digits.
pub open spec fn token_mantissa(s: Seq<char>, i: int) -> int {
    let a: int = i + sign_len(s, i);
    let j: int = a + digit_run(s, a);
    let fd: int = frac_digits(s, j);
    digits_val(s.subrange(a, j)) * pow10(fd) + (if frac_len(s, j) > 0 {
        digits_val(s.subrange(j + 1, j + 1 + fd))
    } else {
        0
    })
}

/// The signed exponent of the token part starting at `k`, 0 when absent.
pub open spec fn token_exp_val(s: Seq<char>, k: int) -> int {
    if exp_len(s, k) == 0 {
        0
    } else {
        let es: int = if is_sign(s[k + 1]) {
            1
        } else {
            0
        };
        let ed: int = digit_run(s, k + 1 + es);
        let ev: int = digits_val(s.subrange(k + 1 + es, k + 1 + es + ed));
        if s[k + 1] == '-' {
            -ev
        } else {
            ev
        }
    }
}

/// The scaled value of the token starting at `i`: its mantissa shifted by the
/// exponent to micro-units, truncated toward zero, with its sign; `None` when
/// mantissa or magnitude are out of the representable range.
pub open spec fn token_value_at(s: Seq<char>, i: int) -> Option<i64> {
    let a: int = i + sign_len(s, i);
    let j: int = a + digit_run(s, a);
    let k: int = j + frac_len(s, j);
    let mant: int = token_mantissa(s, i);
    let shift: int = 6 + token_exp_val(s, k) - frac_digits(s, j);
    if mant >= DIGITS_CAP as int {
        None
    } else {
        let m: int = if shift >= 0 {
            mant * pow10(shift)
        } else {
            mant / pow10(-shift)
        };
        if m >= MAX_SCALED as int {
            None
        } else if 0 <= i && i < s.len() && s[i] == '-' {
            Some((-m) as i64)
        } else {
            Some(m as i64)
        }
    }
}

proof fn lemma_digits_val_snoc(s: Seq<char>, c: char)
    ensures
        digits_val(s.push(c)) == 10 * digits_val(s) + digit_val(c),
{
    assert(s.push(c).drop_last() =~= s);
    assert(s.push(c).last() == c);
}

/// Exclusive scan of digit characters `s[start..end]`, folding them onto
/// `acc0` and saturating at `cap`.
fn accum_digits(s: &str, start: usize, end: usize, acc0: u128, cap: u128) -> (r: u128)
    requires
        start <= end <= s@.len(),
        forall|k: int| start <= k < end ==> is_digit(s@[k]),
        acc0 < cap,
        cap <= EXP_CAP,
    ensures
        ({
            let v = acc0 * pow10(end - start) + digits_val(s@.subrange(start as int, end as int));
            &&& (v < cap ==> r == v)
            &&& (v >= cap ==> r >= cap)
            &&& v >= 0
        }),
{
    let mut j: usize = start;
    let mut acc: u128 = acc0;
    proof {
        assert(s@.subrange(start as int, start as int) =~= Seq::<char>::empty());
    }
    while j < end
        invariant
            start <= j <= end <= s@.len(),
            forall|k: int| start <= k < end ==> is_digit(s@[k]),
            acc0 < cap,
            cap <= EXP_CAP,
            acc < 10 * cap,
            ({
                let v = acc0 * pow10(j - start) + digits_val(
                    s@.subrange(start as int, j as int),
                );
                &&& (v < cap ==> acc == v)
                &&& (v >= cap ==> acc >= cap)
                &&& v >= 0
            }),
        decreases end - j,
    {
        let ghost pre = s@.subrange(start as int, j as int);
        let ghost vj: int = acc0 * pow10(j - start) + digits_val(pre);
        let c = s.get_char(j);
        let d: u128 = ((c as u32) - 48) as u128;
        proof {
            assert(is_digit(s@[j as int]));
            assert(s@.subrange(start as int, j + 1) =~= pre.push(s@[j as int]));
            lemma_digits_val_snoc(pre, s@[j as int]);
            assert(pow10(j + 1 - start) == 10 * pow10(j - start));
            assert(acc0 * (10 * pow10(j - start)) == 10 * (acc0 * pow10(j - start)))
                by (nonlinear_arith);
            assert(acc0 * pow10(j + 1 - start) + digits_val(s@.subrange(start as int, j + 1))
                == 10 * vj + d) by {
                assert(digit_val(s@[j as int]) == d);
            }
            assert(vj >= 0);
        }
        if acc < cap {
            proof {
                assert(acc == vj);
                assert(acc * 10 <= (cap - 1) * 10) by (nonlinear_arith)
                    requires acc <= cap - 1, cap >= 1;
            }
            acc = acc * 10 + d;
        } else {
            proof {
                assert(vj >= cap);
                assert(10 * vj + d >= vj);
            }
        }
        j = j + 1;
    }
    proof {
        assert(j == end);
    }
    acc
}

/// Length of the digit run starting at `i`.
fn digit_run_exec(s: &str, i: usize) -> (r: usize)
    requires
        i <= s@.len(),
    ensures
        r == digit_run(s@, i as int),
        i + r <= s@.len(),
{
    let n = s.unicode_len();
    let mut j: usize = i;
    loop
        invariant
            i <= j <= n,
            n == s@.len(),
            digit_run(s@, i as int) == j - i + digit_run(s@, j as int),
        ensures
            i <= j <= n,
            digit_run(s@, j as int) == 0,
        decreases n - j,
    {
        if j == n {
            break;
        }
        let c = s.get_char(j);
        if !('0' <= c && c <= '9') {
            break;
        }
        proof {
            assert(digit_run(s@, j as int) == 1 + digit_run(s@, j + 1));
        }
        j = j + 1;
    }
    proof {
        lemma_digit_run(s@, i as int);
    }
    j - i
}

/// `pow10` for the exponents that fit a `u64`.
fn pow10_u64(e: u64) -> (r: u64)
    requires
        e <= 18,
    ensures
        r == pow10(e as int),
{
    proof {
        reveal_with_fuel(pow10, 20);
        assert(pow10(18) == 1000000000000000000);
    }
    let mut k: u64 = 0;
    let mut r: u64 = 1;
    while k < e
        invariant
            0 <= k <= e <= 18,
            r == pow10(k as int),
        decreases e - k,
    {
        proof {
            reveal_with_fuel(pow10, 20);
            lemma_pow10_mono(k as int, 17);
            assert(pow10(17) == 100000000000000000);
        }
        r = r * 10;
        k = k + 1;
    }
    r
}

proof fn lemma_digits_subrange(s: Seq<char>, a: int, b: int)
    requires
        0 <= a <= b <= s.len(),
        forall|k: int| a <= k < b ==> is_digit(s[k]),
    ensures
        forall|k: int| 0 <= k < b - a ==> is_digit(#[trigger] s.subrange(a, b)[k]),
        digits_val(s.subrange(a, b)) >= 0,
{
    assert forall|k: int| 0 <= k < b - a implies is_digit(#[trigger] s.subrange(a, b)[k]) by {
        assert(s.subrange(a, b)[k] == s[a + k]);
    }
    lemma_digits_val_nonneg(s.subrange(a, b));
}

pub proof fn lemma_token_len_at_bounds(s: Seq<char>, i: int)
    requires
        0 <= i <= s.len(),
    ensures
        0 <= token_len_at(s, i),
        i + token_len_at(s, i) <= s.len(),
{
    let sl: int = sign_len(s, i);
    lemma_digit_run(s, i + sl);
    let d1: int = digit_run(s, i + sl);
    if d1 != 0 {
        let j: int = i + sl + d1;
        if 0 <= j && j < s.len() && is_sep(s[j]) {
            lemma_digit_run(s, j + 1);
        }
        let k: int = j + frac_len(s, j);
        if 0 <= k && k < s.len() && is_exp_mark(s[k]) {
            let es: int = if k + 1 < s.len() && is_sign(s[k + 1]) {
                1
            } else {
                0
            };
            lemma_digit_run(s, k + 1 + es);
        }
    }
}

/// Total length of the numeric token starting at `i`, 0 if none starts here.
pub fn token_len_exec(s: &str, i: usize) -> (l: usize)
    requires
        i <= s@.len(),
    ensures
        l == token_len_at(s@, i as int),
        i + l <= s@.len(),
{
    let n = s.unicode_len();
    if i == n {
        return 0;
    }
    let c0 = s.get_char(i);
    let sl: usize = if c0 == '+' || c0 == '-' {
        1
    } else {
        0
    };
    proof {
        assert(sl == sign_len(s@, i as int));
    }
    let d1 = digit_run_exec(s, i + sl);
    if d1 == 0 {
        return 0;
    }
    let j = i + sl + d1;
    let mut fl: usize = 0;
    if j < n {
        let cj = s.get_char(j);
        if cj == '.' || cj == ',' {
            let fr = digit_run_exec(s, j + 1);
            if fr > 0 {
                fl = 1 + fr;
            }
        }
    }
    proof {
        assert(fl == frac_len(s@, j as int));
    }
    let k = j + fl;
    let mut el: usize = 0;
    if k < n {
        let ck = s.get_char(k);
        if ck == 'e' || ck == 'E' {
            let mut es: usize = 0;
            if k + 1 < n {
                let cs = s.get_char(k + 1);
                if cs == '+' || cs == '-' {
                    es = 1;
                }
            }
            let ed = digit_run_exec(s, k + 1 + es);
            if ed > 0 {
                el = 1 + es + ed;
            }
        }
    }
    proof {
        assert(el == exp_len(s@, k as int));
    }
    sl + d1 + fl + el
}

/// The scaled value of a string that is exactly one numeric token, `None`
/// for any other string.
pub open spec fn spec_parse(s: Seq<char>) -> Option<i64> {
    if s.len() > 0 && token_len_at(s, 0) == s.len() {
        token_value_at(s, 0)
    } else {
        None
    }
}

/// Parses a whole string as one numeric token, as `spec_parse` gives it.
pub fn parse_scaled(s: &str) -> (r: Option<i64>)
    ensures
        r == spec_parse(s@),
        r matches Some(v) ==> -MAX_SCALED < v < MAX_SCALED,
{
    let n = s.unicode_len();
    if n == 0 {
        return None;
    }
    let l = token_len_exec(s, 0);
    if l != n {
        return None;
    }
    token_value_exec(s, 0)
}

/// Magnitude of a token value: the mantissa shifted to micro-units, `None`
/// when at or above `MAX_SCALED`.
#[verifier::rlimit(50)]
fn scale_magnitude(mant: u128, fd: usize, e: i128) -> (r: Option<u64>)
    requires
        0 < mant < DIGITS_CAP,
        -1000000000000000000000000000000 < e < 1000000000000000000000000000000,
        fd < 1000000000000000000000,
    ensures
        ({
            let shift: int = 6 + e - fd;
            let m: int = if shift >= 0 {
                (mant as int) * pow10(shift)
            } else {
                (mant as int) / pow10(-shift)
            };
            &&& (m >= MAX_SCALED as int ==> r is None)
            &&& (m < MAX_SCALED as int ==> r == Some(m as u64))
            &&& m >= 0
        }),
{
    let ghost shift_g: int = 6 + e - fd;
    let ghost manti: int = mant as int;
    let shift: i128 = 6 + e - (fd as i128);
    proof {
        assert(shift as int == shift_g);
    }
    if shift >= 0 {
        if shift > 18 {
            proof {
                assert(pow10(19) == 10000000000000000000) by {
                    reveal_with_fuel(pow10, 21);
                }
                lemma_pow10_mono(19, shift_g);
                assert(manti * pow10(shift_g) >= pow10(shift_g)) by (nonlinear_arith)
                    requires manti >= 1, pow10(shift_g) >= 1;
            }
            return None;
        }
        let p = pow10_u64(shift as u64);
        proof {
            assert(pow10(18) == 1000000000000000000) by {
                reveal_with_fuel(pow10, 21);
            }
            lemma_pow10_mono(shift_g, 18);
            lemma_pow10_pos(shift_g);
            assert(manti * (p as int) < DIGITS_CAP as int * pow10(18)) by (nonlinear_arith)
                requires
                    0 <= manti < DIGITS_CAP as int,
                    0 < p as int <= pow10(18),
            ;
        }
        let prod: u128 = mant * (p as u128);
        if prod >= 1000000000000000000u128 {
            return None;
        }
        Some(prod as u64)
    } else {
        let ns: i128 = -shift;
        if ns >= 19 {
            proof {
                assert(pow10(19) == 10000000000000000000) by {
                    reveal_with_fuel(pow10, 21);
                }
                lemma_pow10_mono(19, ns as int);
                lemma_basic_div(manti, pow10(ns as int));
            }
            return Some(0);
        }
        let p = pow10_u64(ns as u64);
        proof {
            lemma_pow10_pos(ns as int);
        }
        let q = mant / (p as u128);
        proof {
            let pi: int = p as int;
            lemma_fundamental_div_mod(manti, pi);
            lemma_mod_bound(manti, pi);
            lemma_div_pos_is_pos(manti, pi);
            assert(pi >= 10) by {
                lemma_pow10_mono(1, ns as int);
            }
            assert((manti / pi) * pi <= manti) by {
                assert(manti == pi * (manti / pi) + manti % pi);
                assert(manti % pi >= 0);
                assert(pi * (manti / pi) == (manti / pi) * pi) by (nonlinear_arith);
            }
            assert((manti / pi) * 10 <= (manti / pi) * pi) by (nonlinear_arith)
                requires manti / pi >= 0, pi >= 10;
            assert(manti / pi < MAX_SCALED as int);
        }
        Some(q as u64)
    }
}

/// The scaled value of the token starting at `i`, as `token_value_at` gives it.
#[verifier::rlimit(100)]
pub fn token_value_exec(s: &str, i: usize) -> (r: Option<i64>)
    requires
        i < s@.len(),
        token_len_at(s@, i as int) > 0,
    ensures
        r == token_value_at(s@, i as int),
        r matches Some(v) ==> -MAX_SCALED < v < MAX_SCALED,
{
    let n = s.unicode_len();
    let c0 = s.get_char(i);
    let neg = c0 == '-';
    let sl: usize = if c0 == '+' || c0 == '-' {
        1
    } else {
        0
    };
    proof {
        assert(sl == sign_len(s@, i as int));
    }
    let a = i + sl;
    let d1 = digit_run_exec(s, a);
    proof {
        lemma_digit_run(s@, a as int);
        if d1 == 0 {
            assert(token_len_at(s@, i as int) == 0);
        }
    }
    let j = a + d1;
    let mut fl: usize = 0;
    if j < n {
        let cj = s.get_char(j);
        if cj == '.' || cj == ',' {
            let fr = digit_run_exec(s, j + 1);
            if fr > 0 {
                fl = 1 + fr;
            }
        }
    }
    proof {
        assert(fl == frac_len(s@, j as int));
    }
    let fd: usize = if fl > 0 {
        fl - 1
    } else {
        0
    };
    let k = j + fl;
    let mut el: usize = 0;
    let mut es: usize = 0;
    let mut eneg = false;
    if k < n {
        let ck = s.get_char(k);
        if ck == 'e' || ck == 'E' {
            if k + 1 < n {
                let cs = s.get_char(k + 1);
                if cs == '+' || cs == '-' {
                    es = 1;
                    if cs == '-' {
                        eneg = true;
                    }
                }
            }
            let ed = digit_run_exec(s, k + 1 + es);
            if ed > 0 {
                el = 1 + es + ed;
            }
        }
    }
    let ghost fdg: int = frac_digits(s@, j as int);
    let ghost mant: int = token_mantissa(s@, i as int);
    let ghost eval: int = token_exp_val(s@, k as int);
    let ghost shift_g: int = 6 + eval - fdg;
    proof {
        assert(el == exp_len(s@, k as int));
        assert(fdg == fd as int);
        lemma_pow10_pos(fdg);
    }
    // mantissa: integer-part digits, then fractional digits
    proof {
        lemma_digits_subrange(s@, a as int, j as int);
    }
    let macc = accum_digits(s, a, j, 0, DIGITS_CAP);
    let ghost dvi: int = digits_val(s@.subrange(a as int, j as int));
    proof {
        assert(0 * pow10(j - a) == 0);
        assert(dvi * pow10(fdg) >= dvi) by (nonlinear_arith)
            requires dvi >= 0, pow10(fdg) >= 1;
    }
    if macc >= DIGITS_CAP {
        proof {
            if fl > 0 {
                lemma_digit_run(s@, j + 1);
                lemma_digits_subrange(s@, j + 1, j + 1 + fdg);
            }
            assert(mant >= DIGITS_CAP as int);
        }
        return None;
    }
    let mant_acc: u128;
    if fl > 0 {
        proof {
            lemma_digit_run(s@, j + 1);
            lemma_digits_subrange(s@, j + 1, j + 1 + fdg);
        }
        mant_acc = accum_digits(s, j + 1, j + 1 + fd, macc, DIGITS_CAP);
        if mant_acc >= DIGITS_CAP {
            proof {
                assert(mant >= DIGITS_CAP as int);
            }
            return None;
        }
    } else {
        mant_acc = macc;
        proof {
            let aa: int = i + sign_len(s@, i as int);
            let jj: int = aa + digit_run(s@, aa);
            assert(aa == a as int && jj == j as int);
            assert(frac_len(s@, jj) == 0 && frac_digits(s@, jj) == 0);
            assert(pow10(0) == 1);
            assert(dvi * pow10(0) == dvi) by (nonlinear_arith)
                requires pow10(0) == 1;
            assert(mant == dvi);
        }
    }
    proof {
        assert(mant_acc as int == mant);
        assert(0 <= mant < DIGITS_CAP as int);
    }
    if mant_acc == 0 {
        proof {
            assert(0 * pow10(shift_g) == 0) by (nonlinear_arith);
            if shift_g < 0 {
                lemma_pow10_pos(-shift_g);
                lemma_basic_div(0, pow10(-shift_g));
            }
        }
        return Some(0);
    }
    // exponent digits
    let mut eacc: u128 = 0;
    let ghost mut dve: int = 0;
    if el > 0 {
        let ed = el - 1 - es;
        proof {
            lemma_digit_run(s@, k + 1 + es);
            lemma_digits_subrange(s@, k + 1 + es, k + 1 + es + ed);
        }
        eacc = accum_digits(s, k + 1 + es, k + 1 + es + ed, 0, EXP_CAP);
        proof {
            dve = digits_val(s@.subrange(k + 1 + es, k + 1 + es + ed));
            assert(0 * pow10(ed as int) == 0);
            assert(eval == if eneg { -dve } else { dve });
        }
    }
    if el > 0 && eacc >= EXP_CAP {
        proof {
            assert(dve >= EXP_CAP as int);
            lemma_pow10_pos(20);
        }
        if eneg {
            proof {
                assert(-shift_g == dve + fdg - 6);
                assert(-shift_g >= 20);
                lemma_pow10_mono(20, -shift_g);
                reveal_with_fuel(pow10, 21);
                assert(pow10(20) == 100000000000000000000);
                lemma_basic_div(mant, pow10(-shift_g));
            }
            return Some(0);
        } else {
            proof {
                assert(fdg <= s@.len());
                assert(shift_g == 6 + dve - fdg);
                assert(shift_g >= 20);
                lemma_pow10_mono(20, shift_g);
                reveal_with_fuel(pow10, 21);
                assert(pow10(20) == 100000000000000000000);
                assert(mant * pow10(shift_g) >= pow10(shift_g)) by (nonlinear_arith)
                    requires mant >= 1, pow10(shift_g) >= 1;
            }
            return None;
        }
    }
    let e128: i128 = if el > 0 {
        if eneg {
            -(eacc as i128)
        } else {
            eacc as i128
        }
    } else {
        0
    };
    proof {
        assert(e128 as int == eval);
    }
    let mag = scale_magnitude(mant_acc, fd, e128);
    proof {
        let aa: int = i + sign_len(s@, i as int);
        let jj: int = aa + digit_run(s@, aa);
        let kk: int = jj + frac_len(s@, jj);
        assert(jj == j as int);
        assert(kk == k as int);
        let mspec: int = if shift_g >= 0 {
            mant * pow10(shift_g)
        } else {
            mant / pow10(-shift_g)
        };
        if mag is None {
            assert(mspec >= MAX_SCALED as int);
            assert(token_value_at(s@, i as int) is None);
        } else {
            assert(mspec < MAX_SCALED as int);
            assert(mag.unwrap() as int == mspec);
        }
    }
    match mag {
        None => None,
        Some(m) => {
            let v = m as i64;
            if neg {
                Some(-v)
            } else {
                Some(v)
            }
        },
    }
}

} // verus!
