//! Rendering scaled values back to decimal text.
//!
//! A scaled value prints as its whole part, then, when the fractional part
//! is not zero, a decimal point and the six fractional digits with trailing
//! zeros trimmed.
use vstd::prelude::*;

use crate::num::pow10;
use crate::num::MAX_SCALED;

verus! {

pub open spec fn spec_digit_char(d: int) -> char {
    if d == 0 {
        '0'
    } else if d == 1 {
        '1'
    } else if d == 2 {
        '2'
    } else if d == 3 {
        '3'
    } else if d == 4 {
        '4'
    } else if d == 5 {
        '5'
    } else if d == 6 {
        '6'
    } else if d == 7 {
        '7'
    } else if d == 8 {
        '8'
    } else {
        '9'
    }
}

/// The decimal digits of `n`, most significant first.
pub open spec fn dec_digits(n: int) -> Seq<char>
    decreases n when n >= 0
{
    if n < 10 {
        seq![spec_digit_char(n)]
    } else {
        dec_digits(n / 10).push(spec_digit_char(n % 10))
    }
}

/// The fractional value with its trailing decimal zeros removed.
pub open spec fn strip_val(f: int) -> int
    decreases f when f >= 0
{
    if f > 0 && f % 10 == 0 {
        strip_val(f / 10)
    } else {
        f
    }
}

/// How many of `w` fractional digit places remain once trailing zeros go.
pub open spec fn strip_width(f: int, w: int) -> int
    decreases f when f >= 0
{
    if f > 0 && f % 10 == 0 {
        strip_width(f / 10, w - 1)
    } else {
        w
    }
}

pub open spec fn zero_seq(k: int) -> Seq<char>
    decreases k when k >= 0
{
    if k <= 0 {
        Seq::empty()
    } else {
        zero_seq(k - 1).push('0')
    }
}

/// The text of a scaled value: sign, whole part, and the trimmed fractional
/// part when it is not zero.
pub open spec fn spec_format_scaled(v: int) -> Seq<char> {
    let a: int = if v < 0 {
        -v
    } else {
        v
    };
    let ip: int = a / 1000000;
    let fp: int = a % 1000000;
    let sign: Seq<char> = if v < 0 {
        "-"@
    } else {
        Seq::empty()
    };
    if fp == 0 {
        sign + dec_digits(ip)
    } else {
        let m: int = strip_val(fp);
        let w: int = strip_width(fp, 6);
        sign + dec_digits(ip) + "."@ + zero_seq(w - dec_digits(m).len()) + dec_digits(m)
    }
}

fn digit_str(d: u64) -> (s: &'static str)
    requires
        d < 10,
    ensures
        s@ == seq![spec_digit_char(d as int)],
{
    proof {
        reveal_strlit("0");
        reveal_strlit("1");
        reveal_strlit("2");
        reveal_strlit("3");
        reveal_strlit("4");
        reveal_strlit("5");
        reveal_strlit("6");
        reveal_strlit("7");
        reveal_strlit("8");
        reveal_strlit("9");
    }
    let s = if d == 0 {
        "0"
    } else if d == 1 {
        "1"
    } else if d == 2 {
        "2"
    } else if d == 3 {
        "3"
    } else if d == 4 {
        "4"
    } else if d == 5 {
        "5"
    } else if d == 6 {
        "6"
    } else if d == 7 {
        "7"
    } else if d == 8 {
        "8"
    } else {
        "9"
    };
    proof {
        assert(s@ =~= seq![spec_digit_char(d as int)]);
    }
    s
}

/// Appends the decimal digits of `n` to `out`.
pub fn push_dec_digits(out: &mut String, n: u64)
    ensures
        final(out)@ == old(out)@ + dec_digits(n as int),
    decreases n,
{
    if n < 10 {
        out.append(digit_str(n));
        proof {
            assert(old(out)@ + seq![spec_digit_char(n as int)] =~= old(out)@ + dec_digits(
                n as int,
            ));
        }
    } else {
        let q = n / 10;
        let d = n % 10;
        push_dec_digits(out, q);
        out.append(digit_str(d));
        proof {
            assert((old(out)@ + dec_digits(q as int)) + seq![spec_digit_char(d as int)]
                =~= old(out)@ + dec_digits(n as int));
        }
    }
}

/// How many decimal digits `n` prints with.
fn dec_len(n: u64) -> (r: u64)
    requires
        n < 1000000,
    ensures
        r == dec_digits(n as int).len(),
        1 <= r <= 6,
{
    proof {
        lemma_dec_digits_len_small(n as int);
    }
    if n < 10 {
        1
    } else if n < 100 {
        2
    } else if n < 1000 {
        3
    } else if n < 10000 {
        4
    } else if n < 100000 {
        5
    } else {
        6
    }
}

proof fn lemma_dec_digits_len_small(n: int)
    requires
        0 <= n < 1000000,
    ensures
        dec_digits(n).len() == (if n < 10 {
            1int
        } else if n < 100 {
            2
        } else if n < 1000 {
            3
        } else if n < 10000 {
            4
        } else if n < 100000 {
            5
        } else {
            6
        }),
    decreases n,
{
    if n >= 10 {
        lemma_dec_digits_len_small(n / 10);
    }
}

/// Appends the text of the scaled value `v` to `out`.
pub fn push_scaled(out: &mut String, v: i64)
    requires
        -MAX_SCALED < v < MAX_SCALED,
    ensures
        final(out)@ == old(out)@ + spec_format_scaled(v as int),
{
    let ghost base = out@;
    if v < 0 {
        out.append("-");
    }
    proof {
        reveal_strlit("-");
        if v < 0 {
            assert(out@ =~= base + "-"@);
        }
    }
    let ghost signed = out@;
    let a: u64 = if v < 0 {
        (-v) as u64
    } else {
        v as u64
    };
    let ip: u64 = a / 1000000;
    let fp: u64 = a % 1000000;
    push_dec_digits(out, ip);
    if fp == 0 {
        proof {
            assert(out@ =~= base + spec_format_scaled(v as int));
        }
        return;
    }
    out.append(".");
    proof {
        reveal_strlit(".");
        assert(out@ =~= signed + dec_digits(ip as int) + "."@);
    }
    let ghost dotted = out@;
    let mut m: u64 = fp;
    let mut w: u64 = 6;
    proof {
        assert(pow10(0) == 1);
        assert(fp as int == m as int * pow10(6 - w));
        assert(pow10(6) == 1000000) by {
            reveal_with_fuel(pow10, 8);
        }
    }
    while m % 10 == 0
        invariant
            0 < m <= fp < 1000000,
            1 <= w <= 6,
            fp as int == m as int * pow10(6 - w),
            m < pow10(w as int),
            strip_val(fp as int) == strip_val(m as int),
            strip_width(fp as int, 6) == strip_width(m as int, w as int),
        decreases m,
    {
        proof {
            assert(m >= 10) by {
                assert(m % 10 == 0 && m > 0);
            }
            assert(w >= 2) by {
                if w == 1 {
                    assert(pow10(1) == 10) by {
                        reveal_with_fuel(pow10, 3);
                    }
                }
            }
            assert((m as int / 10) * pow10(6 - (w - 1)) == m as int * pow10(6 - w)) by {
                assert(m as int == 10 * (m as int / 10)) by {
                    assert(m % 10 == 0);
                }
                assert(pow10(6 - (w - 1)) == 10 * pow10(6 - w));
                assert((m as int / 10) * (10 * pow10(6 - w)) == (10 * (m as int / 10)) * pow10(
                    6 - w)) by (nonlinear_arith);
            }
            assert((m as int) / 10 < pow10(w as int - 1)) by {
                assert(pow10(w as int) == 10 * pow10(w as int - 1));
                assert((m as int) < 10 * pow10(w as int - 1));
                assert(m as int / 10 < pow10(w as int - 1)) by (nonlinear_arith)
                    requires
                        (m as int) < 10 * pow10(w as int - 1),
                        (m as int) >= 0,
                        pow10(w as int - 1) >= 1,
                ;
            }
            crate::num::lemma_pow10_pos(w as int - 1);
        }
        m = m / 10;
        w = w - 1;
    }
    let dl = dec_len(m);
    proof {
        assert(dl <= w) by {
            lemma_dec_digits_len_vs_pow(m as int);
            if dl > w {
                crate::num::lemma_pow10_mono(w as int, dl as int - 1);
            }
        }
    }
    let zeros = w - dl;
    let mut zc: u64 = 0;
    proof {
        assert(out@ =~= dotted + zero_seq(0));
    }
    while zc < zeros
        invariant
            zc <= zeros,
            out@ == dotted + zero_seq(zc as int),
        decreases zeros - zc,
    {
        out.append("0");
        proof {
            reveal_strlit("0");
            assert((dotted + zero_seq(zc as int)) + "0"@ =~= dotted + zero_seq(zc as int + 1));
        }
        zc = zc + 1;
    }
    push_dec_digits(out, m);
    proof {
        assert(out@ =~= base + spec_format_scaled(v as int));
    }
}

/// The text of the scaled value `v`, as `spec_format_scaled` gives it.
pub fn format_scaled(v: i64) -> (s: String)
    requires
        -MAX_SCALED < v < MAX_SCALED,
    ensures
        s@ == spec_format_scaled(v as int),
{
    let mut s = String::new();
    push_scaled(&mut s, v);
    proof {
        assert(Seq::<char>::empty() + spec_format_scaled(v as int) =~= spec_format_scaled(
            v as int,
        ));
    }
    s
}

proof fn lemma_dec_digits_len_vs_pow(n: int)
    requires
        n >= 0,
    ensures
        n < pow10(dec_digits(n).len() as int),
        dec_digits(n).len() >= 1,
        n >= 1 ==> pow10(dec_digits(n).len() - 1) <= n,
    decreases n,
{
    if n < 10 {
        assert(pow10(1) == 10) by {
            reveal_with_fuel(pow10, 3);
        }
    } else {
        lemma_dec_digits_len_vs_pow(n / 10);
        let l: int = dec_digits(n / 10).len() as int;
        assert(pow10(l + 1) == 10 * pow10(l));
        assert(n < 10 * pow10(l)) by (nonlinear_arith)
            requires
                n / 10 < pow10(l),
                n >= 10,
                pow10(l) >= 1,
                n < 10 * (n / 10) + 10,
        ;
        assert(10 * pow10(l - 1) <= n) by (nonlinear_arith)
            requires
                pow10(l - 1) <= n / 10,
                n >= 10,
                n >= 10 * (n / 10),
        ;
    }
}

} // verus!
