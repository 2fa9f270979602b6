//! Numeric-pair extraction from free-form text.
//!
//! The extractor scans the text left to right.  At each position a numeric
//! token is read greedily if one starts there; its scaled value joins the
//! value sequence, tokens whose value is out of the representable range are
//! skipped, and the values are then grouped two at a time, any trailing
//! unpaired value being dropped.
use vstd::prelude::*;

use crate::Pair;
use crate::num::digit_run;
use crate::num::is_digit;
use crate::num::lemma_token_len_at_bounds;
use crate::num::token_len_at;
use crate::num::token_len_exec;
use crate::num::token_value_at;
use crate::num::token_value_exec;
use crate::num::MAX_SCALED;

verus! {

/// The scaled values of the tokens found from position `i` on.
pub open spec fn spec_values(s: Seq<char>, i: int) -> Seq<i64>
    decreases s.len() - i when 0 <= i <= s.len() via spec_values_decreases
{
    if i >= s.len() {
        Seq::empty()
    } else {
        let l: int = token_len_at(s, i);
        if l == 0 {
            spec_values(s, i + 1)
        } else {
            match token_value_at(s, i) {
                Some(v) => seq![v] + spec_values(s, i + l),
                None => spec_values(s, i + l),
            }
        }
    }
}

#[via_fn]
proof fn spec_values_decreases(s: Seq<char>, i: int) {
    if 0 <= i && i < s.len() {
        lemma_token_len_at_bounds(s, i);
    }
}

/// Consecutive values grouped two at a time; a trailing value is dropped.
pub open spec fn pairs_of(vs: Seq<i64>) -> Seq<Pair>
    decreases vs.len()
{
    if vs.len() < 2 {
        Seq::empty()
    } else {
        seq![Pair { x: vs[0], y: vs[1] }] + pairs_of(vs.skip(2))
    }
}

/// The pairs extracted from the text `s`.
pub open spec fn spec_extract(s: Seq<char>) -> Seq<Pair> {
    pairs_of(spec_values(s, 0))
}

/// The scaled values of all numeric tokens of `s`, in order.
pub fn extract_values(s: &str) -> (vals: Vec<i64>)
    ensures
        vals@ == spec_values(s@, 0),
        forall|q: int| 0 <= q < vals@.len() ==> -MAX_SCALED < #[trigger] vals@[q] < MAX_SCALED,
{
    let n = s.unicode_len();
    let mut vals: Vec<i64> = Vec::new();
    let mut i: usize = 0;
    while i < n
        invariant
            i <= n,
            n == s@.len(),
            spec_values(s@, 0) == vals@ + spec_values(s@, i as int),
            forall|q: int| 0 <= q < vals@.len() ==> -MAX_SCALED < #[trigger] vals@[q]
                < MAX_SCALED,
        decreases n - i,
    {
        let l = token_len_exec(s, i);
        if l == 0 {
            i = i + 1;
        } else {
            let v = token_value_exec(s, i);
            match v {
                Some(val) => {
                    let ghost old_vals = vals@;
                    vals.push(val);
                    proof {
                        assert(old_vals + spec_values(s@, i as int) == old_vals + (seq![val]
                            + spec_values(s@, i + l)));
                        assert(old_vals + (seq![val] + spec_values(s@, i + l)) =~= (old_vals
                            + seq![val]) + spec_values(s@, i + l));
                    }
                },
                None => {},
            }
            i = i + l;
        }
    }
    proof {
        assert(spec_values(s@, n as int) =~= Seq::<i64>::empty());
        assert(vals@ + Seq::<i64>::empty() =~= vals@);
    }
    vals
}

/// Extracts the ordered numeric pairs of the text: tokens are read left to
/// right and their values grouped two at a time; a trailing unpaired value
/// is dropped.
pub fn parse_number_pairs(s: &str) -> (r: Vec<Pair>)
    ensures
        r@ == spec_extract(s@),
        forall|q: int| 0 <= q < r@.len() ==> -MAX_SCALED < #[trigger] r@[q].x < MAX_SCALED
            && -MAX_SCALED < r@[q].y < MAX_SCALED,
{
    let vals = extract_values(s);
    proof {
        lemma_pairs_of_structure(vals@);
    }
    let mut r: Vec<Pair> = Vec::new();
    let mut idx: usize = 0;
    proof {
        assert(vals@.skip(0) =~= vals@);
        assert(Seq::<Pair>::empty() + pairs_of(vals@) =~= pairs_of(vals@));
    }
    while vals.len() - idx >= 2
        invariant
            idx <= vals@.len(),
            pairs_of(vals@) == r@ + pairs_of(vals@.skip(idx as int)),
            forall|q: int| 0 <= q < vals@.len() ==> -MAX_SCALED < #[trigger] vals@[q]
                < MAX_SCALED,
            forall|q: int| 0 <= q < r@.len() ==> -MAX_SCALED < #[trigger] r@[q].x < MAX_SCALED
                && -MAX_SCALED < r@[q].y < MAX_SCALED,
        decreases vals@.len() - idx,
    {
        let p = Pair { x: vals[idx], y: vals[idx + 1] };
        let ghost old_r = r@;
        r.push(p);
        proof {
            assert(-MAX_SCALED < vals@[idx as int] < MAX_SCALED);
            assert(-MAX_SCALED < vals@[idx as int + 1] < MAX_SCALED);
            assert(r@ == old_r.push(p));
            assert(forall|q: int| 0 <= q < r@.len() ==> #[trigger] r@[q] == (if q
                < old_r.len() {
                old_r[q]
            } else {
                p
            }));
            let tail = vals@.skip(idx as int);
            assert(tail.len() >= 2);
            assert(tail[0] == vals@[idx as int]);
            assert(tail[1] == vals@[idx as int + 1]);
            assert(pairs_of(tail) == seq![Pair { x: tail[0], y: tail[1] }] + pairs_of(
                tail.skip(2)));
            assert(tail.skip(2) =~= vals@.skip(idx as int + 2));
            assert(old_r + (seq![p] + pairs_of(vals@.skip(idx as int + 2))) =~= (old_r
                + seq![p]) + pairs_of(vals@.skip(idx as int + 2)));
        }
        idx = idx + 2;
    }
    proof {
        assert(vals@.skip(idx as int).len() < 2);
        assert(pairs_of(vals@.skip(idx as int)) =~= Seq::<Pair>::empty());
        assert(r@ + Seq::<Pair>::empty() =~= r@);
    }
    r
}

/// Every extracted pair takes the next two token values in reading order,
/// and a trailing unpaired value is dropped: there are exactly half as many
/// pairs as values, rounded down.
pub proof fn lemma_pairs_of_structure(vs: Seq<i64>)
    ensures
        pairs_of(vs).len() == vs.len() / 2,
        forall|q: int| 0 <= q < vs.len() / 2 ==> #[trigger] pairs_of(vs)[q] == (Pair {
            x: vs[2 * q],
            y: vs[2 * q + 1],
        }),
    decreases vs.len(),
{
    if vs.len() >= 2 {
        lemma_pairs_of_structure(vs.skip(2));
        let tail = vs.skip(2);
        assert forall|q: int| 0 <= q < vs.len() / 2 implies #[trigger] pairs_of(vs)[q] == (Pair {
            x: vs[2 * q],
            y: vs[2 * q + 1],
        }) by {
            if q > 0 {
                assert(pairs_of(vs)[q] == pairs_of(tail)[q - 1]);
                assert(tail[2 * (q - 1)] == vs[2 * q]);
                assert(tail[2 * (q - 1) + 1] == vs[2 * q + 1]);
            }
        }
    }
}

/// The text with every comma replaced by a decimal point.
pub open spec fn normalize_commas(s: Seq<char>) -> Seq<char> {
    s.map(|k: int, c: char| if c == ',' { '.' } else { c })
}

proof fn lemma_norm_digit_run(s: Seq<char>, i: int)
    requires
        0 <= i <= s.len(),
    ensures
        digit_run(normalize_commas(s), i) == digit_run(s, i),
    decreases s.len() - i,
{
    let ns = normalize_commas(s);
    if i < s.len() {
        assert(is_digit(ns[i]) == is_digit(s[i]));
        if is_digit(s[i]) {
            lemma_norm_digit_run(s, i + 1);
        }
    }
}

proof fn lemma_norm_subrange(s: Seq<char>, a: int, b: int)
    requires
        0 <= a <= b <= s.len(),
        forall|k: int| a <= k < b ==> is_digit(s[k]),
    ensures
        normalize_commas(s).subrange(a, b) =~= s.subrange(a, b),
{
    let ns = normalize_commas(s);
    assert forall|k: int| 0 <= k < b - a implies ns.subrange(a, b)[k] == s.subrange(a, b)[k] by {
        assert(is_digit(s[a + k]));
        assert(ns[a + k] == s[a + k]);
    }
}

proof fn lemma_norm_token(s: Seq<char>, i: int)
    requires
        0 <= i <= s.len(),
    ensures
        token_len_at(normalize_commas(s), i) == token_len_at(s, i),
        token_len_at(s, i) != 0 ==> token_value_at(normalize_commas(s), i) == token_value_at(
            s,
            i,
        ),
{
    let ns = normalize_commas(s);
    let sl: int = crate::num::sign_len(s, i);
    assert(crate::num::sign_len(ns, i) == sl);
    lemma_norm_digit_run(s, i + sl);
    crate::num::lemma_digit_run(s, i + sl);
    let d1: int = digit_run(s, i + sl);
    let a: int = i + sl;
    let j: int = a + d1;
    if d1 > 0 {
        lemma_norm_subrange(s, a, j);
        if 0 <= j && j < s.len() {
            assert(crate::num::is_sep(ns[j]) == crate::num::is_sep(s[j]));
            lemma_norm_digit_run(s, j + 1);
            crate::num::lemma_digit_run(s, j + 1);
        }
        let fl: int = crate::num::frac_len(s, j);
        assert(crate::num::frac_len(ns, j) == fl);
        let fd: int = crate::num::frac_digits(s, j);
        if fl > 0 {
            lemma_norm_subrange(s, j + 1, j + 1 + fd);
        }
        let k: int = j + fl;
        if 0 <= k && k < s.len() {
            assert(crate::num::is_exp_mark(ns[k]) == crate::num::is_exp_mark(s[k]));
            if crate::num::is_exp_mark(s[k]) {
                let es: int = if k + 1 < s.len() && crate::num::is_sign(s[k + 1]) {
                    1
                } else {
                    0
                };
                if k + 1 < s.len() {
                    assert(crate::num::is_sign(ns[k + 1]) == crate::num::is_sign(s[k + 1]));
                    assert((ns[k + 1] == '-') == (s[k + 1] == '-'));
                }
                lemma_norm_digit_run(s, k + 1 + es);
                crate::num::lemma_digit_run(s, k + 1 + es);
                let ed: int = digit_run(s, k + 1 + es);
                if ed > 0 {
                    lemma_norm_subrange(s, k + 1 + es, k + 1 + es + ed);
                }
            }
        }
        assert(crate::num::exp_len(ns, k) == crate::num::exp_len(s, k));
        assert(crate::num::token_exp_val(ns, k) == crate::num::token_exp_val(s, k));
        assert(crate::num::token_mantissa(ns, i) == crate::num::token_mantissa(s, i));
        if 0 <= i && i < s.len() {
            assert((ns[i] == '-') == (s[i] == '-'));
        }
        assert(token_value_at(ns, i) == token_value_at(s, i));
    }
}

proof fn lemma_norm_values(s: Seq<char>, i: int)
    requires
        0 <= i <= s.len(),
    ensures
        spec_values(normalize_commas(s), i) == spec_values(s, i),
    decreases s.len() - i,
{
    let ns = normalize_commas(s);
    if i < s.len() {
        lemma_norm_token(s, i);
        lemma_token_len_at_bounds(s, i);
        let l: int = token_len_at(s, i);
        if l == 0 {
            lemma_norm_values(s, i + 1);
        } else {
            lemma_norm_values(s, i + l);
        }
    }
}

/// A decimal comma denotes exactly what the decimal point does: replacing
/// every comma of the text by a point leaves the extracted pairs unchanged.
pub proof fn lemma_comma_point_normalization(t: Seq<char>)
    ensures
        spec_extract(normalize_commas(t)) == spec_extract(t),
{
    lemma_norm_values(t, 0);
}

/// Extraction is deterministic: it is a function of the text alone, so equal
/// texts always extract to equal pair sequences.
pub proof fn lemma_extract_deterministic(t1: Seq<char>, t2: Seq<char>)
    requires
        t1 == t2,
    ensures
        spec_extract(t1) == spec_extract(t2),
{
}

/// Extraction from a text with an odd number of token values drops exactly
/// the trailing value: the pairs cover the first `2 * (n / 2)` values.
pub proof fn lemma_pairing(t: Seq<char>)
    ensures
        spec_extract(t).len() == spec_values(t, 0).len() / 2,
        forall|q: int| 0 <= q < spec_values(t, 0).len() / 2 ==> #[trigger] spec_extract(t)[q]
            == (Pair { x: spec_values(t, 0)[2 * q], y: spec_values(t, 0)[2 * q + 1] }),
{
    lemma_pairs_of_structure(spec_values(t, 0));
}

} // verus!
