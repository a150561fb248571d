use vstd::prelude::*;

verus! {

/// Fixed-point units in one whole price: eight decimal places.
pub const UNITS_PER_WHOLE: u64 = 100_000_000;

pub open spec fn is_digit(c: char) -> bool {
    '0' <= c && c <= '9'
}

pub open spec fn all_digits(s: Seq<char>) -> bool {
    forall|i: int| 0 <= i < s.len() ==> is_digit(#[trigger] s[i])
}

/// Value of a string of decimal digits (0 for the empty string).
pub open spec fn digits_value(s: Seq<char>) -> int
    decreases s.len(),
{
    if s.len() == 0 {
        0
    } else {
        digits_value(s.drop_last()) * 10 + (s.last() as int - '0' as int)
    }
}

pub open spec fn pow10(n: nat) -> int
    decreases n,
{
    if n == 0 {
        1
    } else {
        10 * pow10((n - 1) as nat)
    }
}

/// The first eight digits after the decimal point, padded with zeros.
pub open spec fn pad8(f: Seq<char>) -> Seq<char> {
    if f.len() >= 8 {
        f.take(8)
    } else {
        f + Seq::new((8 - f.len()) as nat, |i: int| '0')
    }
}

/// Units that the digits after the decimal point stand for; digits past the
/// eighth are dropped.
pub open spec fn frac_units(f: Seq<char>) -> int {
    digits_value(pad8(f))
}

/// Whether `s` reads as digits, a decimal point at `p`, and digits, with at
/// least one digit in all.
pub open spec fn point_at(s: Seq<char>, p: int) -> bool {
    &&& 0 <= p < s.len()
    &&& s[p] == '.'
    &&& all_digits(s.take(p))
    &&& all_digits(s.skip(p + 1))
    &&& s.len() >= 2
}

/// Units of a plain decimal (`12`, `12.5`, `.5`, `12.`); none for any other
/// text, a sign or an exponent included.
pub open spec fn decimal_units(s: Seq<char>) -> Option<int> {
    if all_digits(s) {
        if s.len() > 0 {
            Some(digits_value(s) * UNITS_PER_WHOLE)
        } else {
            None
        }
    } else if exists|p: int| point_at(s, p) {
        let p = choose|p: int| point_at(s, p);
        Some(digits_value(s.take(p)) * UNITS_PER_WHOLE + frac_units(s.skip(p + 1)))
    } else {
        None
    }
}

/// Units of a price string, or 0 where it is no plain decimal or does not fit
/// in `u64`.
pub open spec fn units_or_zero(s: Seq<char>) -> int {
    match decimal_units(s) {
        Some(v) => if v <= u64::MAX {
            v
        } else {
            0
        },
        None => 0,
    }
}

proof fn lemma_digits_value_nonneg(s: Seq<char>)
    requires
        all_digits(s),
    ensures
        digits_value(s) >= 0,
    decreases s.len(),
{
    if s.len() > 0 {
        assert(all_digits(s.drop_last())) by {
            assert forall|i: int| 0 <= i < s.drop_last().len() implies is_digit(
                #[trigger] s.drop_last()[i],
            ) by {
                assert(s.drop_last()[i] == s[i]);
            }
        }
        lemma_digits_value_nonneg(s.drop_last());
        assert(is_digit(s[s.len() - 1]));
    }
}

proof fn lemma_prefix_value_le(s: Seq<char>, k: int)
    requires
        all_digits(s),
        0 <= k <= s.len(),
    ensures
        digits_value(s.take(k)) <= digits_value(s),
    decreases s.len(),
{
    if k < s.len() {
        let d = s.drop_last();
        assert(all_digits(d)) by {
            assert forall|i: int| 0 <= i < d.len() implies is_digit(#[trigger] d[i]) by {
                assert(d[i] == s[i]);
            }
        }
        lemma_prefix_value_le(d, k);
        assert(d.take(k) =~= s.take(k));
        lemma_digits_value_nonneg(d);
        assert(is_digit(s[s.len() - 1]));
    } else {
        assert(s.take(k) =~= s);
    }
}

proof fn lemma_pow10_8()
    ensures
        pow10(8) == 100_000_000,
{
    reveal_with_fuel(pow10, 9);
}

proof fn lemma_pow10_small(k: nat)
    requires
        k <= 8,
    ensures
        1 <= pow10(k) <= 100_000_000,
{
    reveal_with_fuel(pow10, 9);
}

proof fn lemma_frac_units_nonneg(f: Seq<char>)
    requires
        all_digits(f),
    ensures
        frac_units(f) >= 0,
{
    let g = pad8(f);
    assert forall|i: int| 0 <= i < g.len() implies is_digit(#[trigger] g[i]) by {
        if i < f.len() {
            assert(g[i] == f[i]);
        }
    }
    lemma_digits_value_nonneg(g);
}

/// A second decimal point leaves no reading.
proof fn lemma_no_second_point(t: Seq<char>, dot: int, i: int)
    requires
        0 <= dot < i < t.len(),
        t[dot] == '.',
        t[i] == '.',
        all_digits(t.take(dot)),
    ensures
        decimal_units(t).is_none(),
{
    assert(!is_digit(t[dot]));
    assert forall|p: int| !point_at(t, p) by {
        if 0 <= p < dot {
            assert(t.take(dot)[p] == t[p]);
        } else if p == dot {
            assert(t.skip(p + 1)[i - p - 1] == t[i]);
        } else if dot < p < t.len() {
            assert(t.take(p)[dot] == t[dot]);
        }
    }
}

/// A character that is neither a digit nor a point leaves no reading.
proof fn lemma_bad_char(t: Seq<char>, i: int)
    requires
        0 <= i < t.len(),
        t[i] != '.',
        !is_digit(t[i]),
    ensures
        decimal_units(t).is_none(),
{
    assert(!is_digit(t[i]));
    assert forall|p: int| !point_at(t, p) by {
        if 0 <= p < i {
            assert(t.skip(p + 1)[i - p - 1] == t[i]);
        } else if i < p < t.len() {
            assert(t.take(p)[i] == t[i]);
        }
    }
}

/// A whole part that already exceeds `u64` leaves no value that fits.
proof fn lemma_too_large(t: Seq<char>, k: int)
    requires
        1 <= k <= t.len(),
        all_digits(t.take(k)),
        digits_value(t.take(k)) > u64::MAX,
    ensures
        units_or_zero(t) == 0,
{
    if all_digits(t) {
        lemma_prefix_value_le(t, k);
    } else if exists|p: int| point_at(t, p) {
        let p = choose|p: int| point_at(t, p);
        if p < k {
            assert(t.take(k)[p] == t[p]);
        }
        let w = t.take(p);
        lemma_prefix_value_le(w, k);
        assert(w.take(k) =~= t.take(k));
        lemma_frac_units_nonneg(t.skip(p + 1));
    }
}

/// A lone point is no number.
proof fn lemma_lone_point(t: Seq<char>)
    requires
        t.len() == 1,
        t[0] == '.',
    ensures
        decimal_units(t).is_none(),
{
    assert(!is_digit(t[0]));
}

/// With one point at `dot` and digits around it, the reading splits there.
proof fn lemma_single_point(t: Seq<char>, dot: int)
    requires
        point_at(t, dot),
    ensures
        decimal_units(t) == Some(
            digits_value(t.take(dot)) * UNITS_PER_WHOLE + frac_units(t.skip(dot + 1)),
        ),
{
    assert(!is_digit(t[dot]));
    let p = choose|p: int| point_at(t, p);
    if p < dot {
        assert(t.take(dot)[p] == t[p]);
    } else if p > dot {
        assert(t.take(p)[dot] == t[dot]);
    }
}

proof fn lemma_all_digits_push(s: Seq<char>, c: char)
    requires
        all_digits(s),
        is_digit(c),
    ensures
        all_digits(s.push(c)),
{
    assert forall|i: int| 0 <= i < s.push(c).len() implies is_digit(#[trigger] s.push(c)[i]) by {
        if i < s.len() {
            assert(s.push(c)[i] == s[i]);
        }
    }
}

/// Reads a price string as fixed-point units of 1e-8: `"65000.5"` gives
/// 6_500_050_000_000. Text that is no plain decimal, or whose value does not
/// fit in `u64`, gives 0.
pub fn price_units(s: &str) -> (r: u64)
    ensures
        r as int == units_or_zero(s@),
{
    let n = s.unicode_len();
    let ghost t = s@;
    let mut int_part: u128 = 0;
    let mut frac: u128 = 0;
    let mut frac_len: usize = 0;
    let mut seen_dot = false;
    let mut dot: usize = 0;
    let mut i: usize = 0;
    assert(t.take(0) =~= Seq::<char>::empty());
    while i < n
        invariant
            n == t.len(),
            t == s@,
            0 <= i <= n,
            !seen_dot ==> all_digits(t.take(i as int)) && int_part == digits_value(t.take(i as int))
                && int_part <= u64::MAX && frac == 0 && frac_len == 0,
            seen_dot ==> {
                &&& dot < i
                &&& t[dot as int] == '.'
                &&& all_digits(t.take(dot as int))
                &&& int_part == digits_value(t.take(dot as int))
                &&& int_part <= u64::MAX
                &&& all_digits(t.subrange(dot + 1, i as int))
                &&& frac_len as int == (if i - dot - 1 < 8 { i - dot - 1 } else { 8 })
                &&& frac == digits_value(t.subrange(dot + 1, i as int).take(frac_len as int))
                &&& frac < pow10(frac_len as nat)
            },
        decreases n - i,
    {
        let c = s.get_char(i);
        if c == '.' {
            if seen_dot {
                proof {
                    lemma_no_second_point(t, dot as int, i as int);
                }
                return 0;
            }
            seen_dot = true;
            dot = i;
            assert(t.subrange(dot + 1, i as int + 1) =~= Seq::<char>::empty());
            assert(t.subrange(dot + 1, i as int + 1).take(0) =~= Seq::<char>::empty());
        } else if '0' <= c && c <= '9' {
            let d: u128 = (c as u32 - '0' as u32) as u128;
            if !seen_dot {
                assert(t.take(i as int + 1).drop_last() =~= t.take(i as int));
                proof {
                    lemma_all_digits_push(t.take(i as int), c);
                    assert(t.take(i as int).push(c) =~= t.take(i as int + 1));
                }
                int_part = int_part * 10 + d;
                if int_part > u64::MAX as u128 {
                    proof {
                        lemma_too_large(t, i as int + 1);
                    }
                    return 0;
                }
            } else {
                let ghost f0 = t.subrange(dot + 1, i as int);
                let ghost f1 = t.subrange(dot + 1, i as int + 1);
                assert(f1 =~= f0.push(c));
                proof {
                    lemma_all_digits_push(f0, c);
                }
                if frac_len < 8 {
                    proof {
                        lemma_pow10_small(frac_len as nat);
                    }
                    assert(f1.take(frac_len as int + 1) =~= f0.take(frac_len as int).push(c));
                    assert(f1.take(frac_len as int + 1).drop_last() =~= f0.take(frac_len as int));
                    assert(pow10(frac_len as nat + 1) == 10 * pow10(frac_len as nat));
                    frac = frac * 10 + d;
                    frac_len = frac_len + 1;
                } else {
                    assert(f1.take(frac_len as int) =~= f0.take(frac_len as int));
                }
            }
        } else {
            proof {
                lemma_bad_char(t, i as int);
            }
            return 0;
        }
        i = i + 1;
    }
    assert(t.take(n as int) =~= t);
    if !seen_dot {
        if n == 0 {
            return 0;
        }
        assert(int_part * 100_000_000 <= u64::MAX * 100_000_000) by (nonlinear_arith)
            requires
                int_part <= u64::MAX,
        ;
        let total: u128 = int_part * (UNITS_PER_WHOLE as u128);
        if total > u64::MAX as u128 {
            return 0;
        }
        return total as u64;
    }
    if n == 1 {
        proof {
            lemma_lone_point(t);
        }
        return 0;
    }
    let ghost f = t.subrange(dot + 1, n as int);
    assert(f =~= t.skip(dot + 1));
    proof {
        lemma_pow10_8();
        lemma_single_point(t, dot as int);
    }
    if frac_len < 8 {
        assert(f.take(frac_len as int) =~= f + Seq::new(0, |i: int| '0'));
    }
    while frac_len < 8
        invariant
            frac_len <= 8,
            f.len() < 8 ==> frac_len >= f.len() && frac == digits_value(
                f + Seq::new((frac_len - f.len()) as nat, |i: int| '0'),
            ),
            f.len() >= 8 ==> frac_len == 8 && frac == digits_value(f.take(8)),
            frac < pow10(frac_len as nat),
        decreases 8 - frac_len,
    {
        let ghost before = f + Seq::new((frac_len - f.len()) as nat, |i: int| '0');
        let ghost after = f + Seq::new((frac_len + 1 - f.len()) as nat, |i: int| '0');
        assert(after.drop_last() =~= before);
        proof {
            lemma_pow10_small(frac_len as nat);
        }
        frac = frac * 10;
        frac_len = frac_len + 1;
    }
    proof {
        if f.len() < 8 {
            assert(f + Seq::new((8 - f.len()) as nat, |i: int| '0') =~= pad8(f));
        }
    }
    assert(int_part * 100_000_000 <= u64::MAX * 100_000_000) by (nonlinear_arith)
        requires
            int_part <= u64::MAX,
    ;
    let total: u128 = int_part * (UNITS_PER_WHOLE as u128) + frac;
    if total > u64::MAX as u128 {
        return 0;
    }
    total as u64
}

/// Whether `s` is a plain decimal (`12`, `12.5`, `.5`, `12.`).
pub fn is_plain_decimal(s: &str) -> (r: bool)
    ensures
        r == decimal_units(s@).is_some(),
{
    let n = s.unicode_len();
    let ghost t = s@;
    let mut seen_dot = false;
    let mut dot: usize = 0;
    let mut i: usize = 0;
    assert(t.take(0) =~= Seq::<char>::empty());
    while i < n
        invariant
            n == t.len(),
            t == s@,
            0 <= i <= n,
            !seen_dot ==> all_digits(t.take(i as int)),
            seen_dot ==> {
                &&& dot < i
                &&& t[dot as int] == '.'
                &&& all_digits(t.take(dot as int))
                &&& all_digits(t.subrange(dot + 1, i as int))
            },
        decreases n - i,
    {
        let c = s.get_char(i);
        if c == '.' {
            if seen_dot {
                proof {
                    lemma_no_second_point(t, dot as int, i as int);
                }
                return false;
            }
            seen_dot = true;
            dot = i;
            assert(t.subrange(dot + 1, i as int + 1) =~= Seq::<char>::empty());
        } else if '0' <= c && c <= '9' {
            proof {
                if !seen_dot {
                    lemma_all_digits_push(t.take(i as int), c);
                    assert(t.take(i as int).push(c) =~= t.take(i as int + 1));
                } else {
                    lemma_all_digits_push(t.subrange(dot + 1, i as int), c);
                    assert(t.subrange(dot + 1, i as int).push(c) =~= t.subrange(
                        dot + 1,
                        i as int + 1,
                    ));
                }
            }
        } else {
            proof {
                lemma_bad_char(t, i as int);
            }
            return false;
        }
        i = i + 1;
    }
    assert(t.take(n as int) =~= t);
    if !seen_dot {
        return n > 0;
    }
    if n == 1 {
        proof {
            lemma_lone_point(t);
        }
        return false;
    }
    assert(t.subrange(dot + 1, n as int) =~= t.skip(dot + 1));
    proof {
        lemma_single_point(t, dot as int);
    }
    true
}

pub open spec fn has_nonzero_digit(s: Seq<char>) -> bool {
    exists|i: int| 0 <= i < s.len() && '1' <= #[trigger] s[i] <= '9'
}

/// Whether a signed price change counts as rising: it falls only when it is
/// a minus sign before a plain decimal that is not zero. Malformed text reads
/// as zero and so counts as rising.
pub open spec fn change_rises(s: Seq<char>) -> bool {
    !(s.len() > 0 && s[0] == '-' && decimal_units(s.skip(1)).is_some() && has_nonzero_digit(
        s.skip(1),
    ))
}

/// Whether a signed price change string (such as `"-12.5"`) counts as
/// rising; zero, however written, and malformed text count as rising.
pub fn is_rising_change(s: &str) -> (r: bool)
    ensures
        r == change_rises(s@),
{
    let n = s.unicode_len();
    if n == 0 || s.get_char(0) != '-' {
        return true;
    }
    let rest = s.substring_char(1, n);
    assert(rest@ =~= s@.skip(1));
    if !is_plain_decimal(rest) {
        return true;
    }
    let m = rest.unicode_len();
    let mut i: usize = 0;
    while i < m
        invariant
            m == rest@.len(),
            rest@ == s@.skip(1),
            s@.len() > 0,
            s@[0] == '-',
            decimal_units(s@.skip(1)).is_some(),
            0 <= i <= m,
            forall|j: int| 0 <= j < i ==> !('1' <= #[trigger] rest@[j] <= '9'),
        decreases m - i,
    {
        let c = rest.get_char(i);
        if '1' <= c && c <= '9' {
            assert('1' <= rest@[i as int] <= '9');
            assert(has_nonzero_digit(s@.skip(1)));
            return false;
        }
        i = i + 1;
    }
    true
}

} // verus!
