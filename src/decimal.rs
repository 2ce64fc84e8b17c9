use vstd::prelude::*;

verus! {

/// Digits kept after the decimal point: prices and amounts are counted in
/// units of 10^-8.
pub const FRACTION_DIGITS: usize = 8;

pub open spec fn pow10(n: nat) -> nat
    decreases n,
{
    if n == 0 {
        1
    } else {
        10 * pow10((n - 1) as nat)
    }
}

pub open spec fn is_digit(c: char) -> bool {
    '0' <= c && c <= '9'
}

pub open spec fn digit_value(c: char) -> nat {
    (c as int - '0' as int) as nat
}

pub open spec fn all_digits(s: Seq<char>) -> bool {
    forall|i: int| 0 <= i < s.len() ==> is_digit(#[trigger] s[i])
}

/// The number that a string of decimal digits writes.
pub open spec fn digits_value(s: Seq<char>) -> nat
    decreases s.len(),
{
    if s.len() == 0 {
        0
    } else {
        digits_value(s.drop_last()) * 10 + digit_value(s.last())
    }
}

/// `s` is digits, a point at `i`, and at most `FRACTION_DIGITS` digits, with
/// at least one digit before the point.
pub open spec fn is_point_at(s: Seq<char>, i: int) -> bool {
    &&& 0 < i < s.len()
    &&& s[i] == '.'
    &&& all_digits(s.take(i))
    &&& all_digits(s.skip(i + 1))
    &&& s.len() - i - 1 <= FRACTION_DIGITS
}

/// The value of a non-negative decimal text in units of 10^-8: either digits
/// alone, or digits, a point and at most `FRACTION_DIGITS` digits. `None`
/// for any other text.
pub open spec fn decimal_units(s: Seq<char>) -> Option<nat> {
    if s.len() > 0 && all_digits(s) {
        Some(digits_value(s) * pow10(FRACTION_DIGITS as nat))
    } else if exists|i: int| is_point_at(s, i) {
        let i = choose|i: int| is_point_at(s, i);
        Some(digits_value(s.remove(i)) * pow10((FRACTION_DIGITS - (s.len() - i - 1)) as nat))
    } else {
        None
    }
}

/// What parsing `s` gives: its units, when it is a decimal text whose value
/// fits in a `u64`.
pub open spec fn parsed_units(s: Seq<char>) -> Option<u64> {
    match decimal_units(s) {
        Some(v) => if v <= u64::MAX {
            Some(v as u64)
        } else {
            None
        },
        None => None,
    }
}

pub proof fn lemma_pow10_positive(n: nat)
    ensures
        pow10(n) >= 1,
    decreases n,
{
    if n > 0 {
        lemma_pow10_positive((n - 1) as nat);
    }
}

pub proof fn lemma_digits_append(a: Seq<char>, b: Seq<char>)
    ensures
        digits_value(a + b) == digits_value(a) * pow10(b.len()) + digits_value(b),
    decreases b.len(),
{
    if b.len() == 0 {
        assert(a + b =~= a);
        assert(pow10(0) == 1);
        assert(digits_value(a) * 1 == digits_value(a));
    } else {
        let n = b.len();
        assert((a + b).drop_last() =~= a + b.drop_last());
        assert((a + b).last() == b.last());
        lemma_digits_append(a, b.drop_last());
        let x = digits_value(a);
        let p = pow10((n - 1) as nat);
        let y = digits_value(b.drop_last());
        assert(pow10(n) == 10 * p);
        assert(digits_value(b) == y * 10 + digit_value(b.last()));
        assert(digits_value(a + b) == digits_value(a + b.drop_last()) * 10 + digit_value(b.last()));
        assert((x * p + y) * 10 == x * (10 * p) + y * 10) by (nonlinear_arith);
    }
}

pub proof fn lemma_digits_prefix_le(a: Seq<char>, b: Seq<char>)
    ensures
        digits_value(a) <= digits_value(a + b),
{
    lemma_digits_append(a, b);
    lemma_pow10_positive(b.len());
    let x = digits_value(a);
    let p = pow10(b.len());
    assert(x <= x * p) by (nonlinear_arith)
        requires
            p >= 1,
    ;
}

/// Parses a non-negative decimal text into units of 10^-8. `None` when the
/// text is not digits with at most one point and at most `FRACTION_DIGITS`
/// digits after it, or when its value does not fit in a `u64`.
pub fn parse_units(s: &str) -> (r: Option<u64>)
    ensures
        r == parsed_units(s@),
{
    let n = s.unicode_len();
    let ghost text = s@;
    let mut acc: u128 = 0;
    let mut too_large = false;
    let ghost mut digits: Seq<char> = Seq::empty();
    // The digits before the point.
    let mut i: usize = 0;
    while i < n && '0' <= s.get_char(i) && s.get_char(i) <= '9'
        invariant
            n == text.len(),
            text == s@,
            i <= n,
            all_digits(text.take(i as int)),
            digits == text.take(i as int),
            !too_large ==> acc == digits_value(digits) && acc <= u64::MAX,
            too_large ==> digits_value(digits) > u64::MAX,
        decreases n - i,
    {
        let c = s.get_char(i);
        proof {
            assert(text.take(i + 1) =~= digits.push(c));
            assert(digits.push(c).drop_last() =~= digits);
            lemma_digits_prefix_le(digits, seq![c]);
            assert(digits + seq![c] =~= digits.push(c));
        }
        if !too_large {
            acc = acc * 10 + (c as u128 - '0' as u128);
            if acc > u64::MAX as u128 {
                too_large = true;
            }
        }
        proof {
            digits = digits.push(c);
        }
        i = i + 1;
    }
    if i == 0 {
        proof {
            lemma_no_leading_digit(text);
        }
        return None;
    }
    if i == n {
        assert(text.take(i as int) =~= text);
        proof {
            lemma_pow10_positive(FRACTION_DIGITS as nat);
        }
        if too_large {
            proof {
                lemma_scaled_too_large(digits_value(text), pow10(FRACTION_DIGITS as nat));
            }
            return None;
        }
        return scale_units(acc, FRACTION_DIGITS);
    }
    if s.get_char(i) != '.' {
        proof {
            lemma_bad_char(text, i as int);
        }
        return None;
    }
    let point = i;
    let ghost int_digits = digits;
    i = i + 1;
    while i < n && '0' <= s.get_char(i) && s.get_char(i) <= '9'
        invariant
            n == text.len(),
            text == s@,
            point < i <= n,
            text[point as int] == '.',
            all_digits(text.take(point as int)),
            all_digits(text.subrange(point + 1, i as int)),
            int_digits == text.take(point as int),
            digits == int_digits + text.subrange(point + 1, i as int),
            !too_large ==> acc == digits_value(digits) && acc <= u64::MAX,
            too_large ==> digits_value(digits) > u64::MAX,
        decreases n - i,
    {
        let c = s.get_char(i);
        proof {
            assert(text.subrange(point + 1, i + 1) =~= text.subrange(point + 1, i as int).push(c));
            assert(digits.push(c).drop_last() =~= digits);
            lemma_digits_prefix_le(digits, seq![c]);
            assert(digits + seq![c] =~= digits.push(c));
        }
        if !too_large {
            acc = acc * 10 + (c as u128 - '0' as u128);
            if acc > u64::MAX as u128 {
                too_large = true;
            }
        }
        proof {
            digits = digits.push(c);
        }
        i = i + 1;
    }
    if i < n || i - point - 1 > FRACTION_DIGITS {
        proof {
            lemma_bad_fraction(text, point as int, i as int);
        }
        return None;
    }
    proof {
        assert(text.subrange(point + 1, i as int) =~= text.skip(point + 1));
        assert(is_point_at(text, point as int));
        lemma_point_unique(text, point as int);
        assert(text.remove(point as int) =~= digits);
        lemma_pow10_positive((FRACTION_DIGITS - (text.len() - point - 1)) as nat);
    }
    if too_large {
        proof {
            lemma_scaled_too_large(
                digits_value(digits),
                pow10((FRACTION_DIGITS - (text.len() - point - 1)) as nat),
            );
        }
        return None;
    }
    scale_units(acc, FRACTION_DIGITS - (i - point - 1))
}

/// `v * 10^k`, when it fits in a `u64`.
fn scale_units(v: u128, k: usize) -> (r: Option<u64>)
    requires
        v <= u64::MAX,
        k <= FRACTION_DIGITS,
    ensures
        r == (if v * pow10(k as nat) <= u64::MAX {
            Some((v * pow10(k as nat)) as u64)
        } else {
            None
        }),
{
    let mut out: u128 = v;
    let mut j: usize = 0;
    assert(pow10(0) == 1);
    while j < k
        invariant
            j <= k,
            out == v * pow10(j as nat),
            out <= u64::MAX,
        decreases k - j,
    {
        proof {
            lemma_pow10_positive((k - j - 1) as nat);
            lemma_scaled_grows(v as nat, j as nat, k as nat);
        }
        proof {
            assert(v * pow10((j + 1) as nat) == v * pow10(j as nat) * 10) by (nonlinear_arith)
                requires
                    pow10((j + 1) as nat) == 10 * pow10(j as nat),
            ;
        }
        let next = out * 10;
        if next > u64::MAX as u128 {
            return None;
        }
        out = next;
        j = j + 1;
    }
    Some(out as u64)
}

proof fn lemma_pow10_mono(a: nat, b: nat)
    requires
        a <= b,
    ensures
        pow10(a) <= pow10(b),
    decreases b,
{
    if a < b {
        lemma_pow10_mono(a, (b - 1) as nat);
    }
}

/// Once `v * 10^(j+1)` overflows, so does `v * 10^k` for every `k > j`.
proof fn lemma_scaled_grows(v: nat, j: nat, k: nat)
    requires
        j < k,
    ensures
        v * pow10(j + 1) <= v * pow10(k),
{
    lemma_pow10_mono(j + 1, k);
    let a = pow10(j + 1);
    let b = pow10(k);
    assert(v * a <= v * b) by (nonlinear_arith)
        requires
            a <= b,
    ;
}

proof fn lemma_scaled_too_large(v: nat, p: nat)
    requires
        v > u64::MAX,
        p >= 1,
    ensures
        v * p > u64::MAX,
{
    assert(v * p >= v) by (nonlinear_arith)
        requires
            p >= 1,
    ;
}

proof fn lemma_point_unique(s: Seq<char>, i: int)
    requires
        is_point_at(s, i),
    ensures
        !(s.len() > 0 && all_digits(s)),
        forall|j: int| is_point_at(s, j) ==> j == i,
{
    assert(!is_digit(s[i]));
    assert forall|j: int| is_point_at(s, j) implies j == i by {
        if j < i {
            assert(s.skip(j + 1)[i - j - 1] == s[i]);
        } else if i < j {
            assert(s.take(j)[i] == s[i]);
        }
    }
}

proof fn lemma_no_leading_digit(s: Seq<char>)
    requires
        s.len() == 0 || !is_digit(s[0]),
    ensures
        parsed_units(s) is None,
{
    assert forall|j: int| !is_point_at(s, j) by {
        if is_point_at(s, j) {
            assert(s.take(j)[0] == s[0]);
        }
    }
}

proof fn lemma_bad_char(s: Seq<char>, i: int)
    requires
        0 < i < s.len(),
        all_digits(s.take(i)),
        !is_digit(s[i]),
        s[i] != '.',
    ensures
        parsed_units(s) is None,
{
    assert forall|j: int| !is_point_at(s, j) by {
        if is_point_at(s, j) {
            if j < i {
                assert(s.skip(j + 1)[i - j - 1] == s[i]);
            } else if i < j {
                assert(s.take(j)[i] == s[i]);
            }
        }
    }
}

proof fn lemma_bad_fraction(s: Seq<char>, point: int, i: int)
    requires
        0 < point < i <= s.len(),
        s[point] == '.',
        all_digits(s.take(point)),
        all_digits(s.subrange(point + 1, i)),
        i < s.len() ==> !is_digit(s[i]),
        i < s.len() || i - point - 1 > FRACTION_DIGITS,
    ensures
        parsed_units(s) is None,
{
    assert(!is_digit(s[point]));
    assert forall|j: int| !is_point_at(s, j) by {
        if is_point_at(s, j) {
            if j < point {
                assert(s.skip(j + 1)[point - j - 1] == s[point]);
            } else if point < j {
                assert(s.take(j)[point] == s[point]);
            } else if i < s.len() {
                assert(s.skip(j + 1)[i - j - 1] == s[i]);
            }
        }
    }
}

} // verus!
