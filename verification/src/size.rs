//! Byte counts: reading a decimal size as the nearest double-precision value
//! and writing one in binary units, in exact integer arithmetic.

use crate::bignat::BigNat;
use crate::text;
use crate::text::{decimal_string, run_end, slice_chars, CharClass};
use vstd::prelude::*;

verus! {

// ----------------------------------------------------------- exact arithmetic

/// `d` times two to the power of `f`.
pub open spec fn doubled(d: nat, f: nat) -> nat
    decreases f,
{
    if f == 0 {
        d
    } else {
        doubled(2 * d, (f - 1) as nat)
    }
}

/// Ten to the power of `k`.
pub open spec fn ten_to(k: nat) -> nat
    decreases k,
{
    if k == 0 {
        1
    } else {
        10 * ten_to((k - 1) as nat)
    }
}

/// 1024 to the power of `k`.
pub open spec fn kib_to(k: nat) -> nat
    decreases k,
{
    if k == 0 {
        1
    } else {
        1024 * kib_to((k - 1) as nat)
    }
}

/// The integer nearest to `n / d`, the even one where two are as near.
pub open spec fn half_even(n: nat, d: nat) -> nat {
    let q = n / d;
    let r = n % d;
    if 2 * r > d || (2 * r == d && q % 2 == 1) {
        q + 1
    } else {
        q
    }
}

/// The least `f` such that `n` is below `d` times two to the power of `f`.
pub open spec fn span(n: nat, d: nat) -> nat
    decreases
        (if n < d {
            0
        } else {
            n - d + 1
        }),
{
    if d == 0 || n < d {
        0
    } else {
        1 + span(n, 2 * d)
    }
}

/// The byte count that `p / q` stands for: `p / q` is rounded to a
/// double-precision number, that is to 53 significant bits, ties to even; the
/// result is rounded to an integer, halves up. There is none where the double
/// exceeds two to the power of 64; that power itself counts as the largest
/// `u64`. Below one quarter the double cannot reach one half. From there on it
/// is a multiple of `2^-54`, and `fixed` counts those.
pub open spec fn nearest_bytes(p: nat, q: nat) -> Option<u64> {
    if 4 * p < q {
        Some(0)
    } else {
        let f = span(2 * p, q);
        let significand = half_even(doubled(2 * p, 53), doubled(q, f));
        let fixed = doubled(significand, f);
        if fixed > 0x40_0000_0000_0000_0000_0000_0000_0000 {
            None
        } else {
            let whole = (fixed + 0x20_0000_0000_0000) / 0x40_0000_0000_0000;
            Some(
                if whole > u64::MAX {
                    u64::MAX
                } else {
                    whole as u64
                },
            )
        }
    }
}

/// Doubling a number is multiplying it by a power of two.
pub proof fn doubled_is_product(d: nat, f: nat)
    ensures
        doubled(d, f) == d * doubled(1, f),
    decreases f,
{
    if f == 0 {
        assert(d * 1 == d) by (nonlinear_arith);
    } else {
        doubled_is_product(2 * d, (f - 1) as nat);
        doubled_is_product(2, (f - 1) as nat);
        let rest = doubled(1, (f - 1) as nat);
        assert((2 * d) * rest == d * (2 * rest)) by (nonlinear_arith);
    }
}

/// Doubling once more is multiplying by two.
pub proof fn doubled_step(d: nat, f: nat)
    ensures
        doubled(d, f + 1) == 2 * doubled(d, f),
{
    doubled_is_product(d, f);
    doubled_is_product(2 * d, f);
    let rest = doubled(1, f);
    assert((2 * d) * rest == 2 * (d * rest)) by (nonlinear_arith);
}

/// Doubling more often never gives less.
pub proof fn doubled_grows(d: nat, f: nat, g: nat)
    requires
        f <= g,
    ensures
        doubled(d, f) <= doubled(d, g),
        d <= doubled(d, f),
    decreases g,
{
    if f < g {
        doubled_grows(d, f, (g - 1) as nat);
        doubled_step(d, (g - 1) as nat);
    } else if f > 0 {
        doubled_grows(d, (f - 1) as nat, (f - 1) as nat);
        doubled_step(d, (f - 1) as nat);
    }
}

/// What the span of `n` over `d` is: `n` lies below `d` times that power of two and not
/// below `d` times the one before.
pub proof fn span_bounds(n: nat, d: nat)
    requires
        d > 0,
    ensures
        n < doubled(d, span(n, d)),
        span(n, d) > 0 ==> n >= doubled(d, (span(n, d) - 1) as nat),
    decreases
        (if n < d {
            0
        } else {
            n - d + 1
        }),
{
    if n >= d {
        span_bounds(n, 2 * d);
    }
}

proof fn two_to_119()
    ensures
        doubled(1, 119) == 0x80_0000_0000_0000_0000_0000_0000_0000,
{
    assert(doubled(1, 119) == doubled(0x1_0000_0000, 87)) by {
        reveal_with_fuel(doubled, 33);
    }
    assert(doubled(0x1_0000_0000, 87) == doubled(0x1_0000_0000_0000_0000, 55)) by {
        reveal_with_fuel(doubled, 33);
    }
    assert(doubled(0x1_0000_0000_0000_0000, 55) == doubled(
        0x1_0000_0000_0000_0000_0000_0000,
        23,
    )) by {
        reveal_with_fuel(doubled, 33);
    }
    assert(doubled(0x1_0000_0000_0000_0000_0000_0000, 23)
        == 0x80_0000_0000_0000_0000_0000_0000_0000) by {
        reveal_with_fuel(doubled, 24);
    }
}

/// A quotient that is far too large gives no byte count.
proof fn too_large(p: nat, q: nat)
    requires
        q > 0,
        2 * p >= doubled(q, 119),
    ensures
        nearest_bytes(p, q) is None,
{
    let n = 2 * p;
    let f = span(n, q);
    span_bounds(n, q);
    if f <= 119 {
        doubled_grows(q, f, 119);
    }
    let d = doubled(q, f);
    doubled_step(q, (f - 1) as nat);
    doubled_step(n, 0);
    doubled_grows(n, 1, 53);
    doubled_grows(q, 0, 119);
    doubled_grows(q, 0, f);
    let top = doubled(n, 53);
    assert(top >= d);
    assert(top / d >= 1) by (nonlinear_arith)
        requires
            top >= d,
            d > 0,
    ;
    let m = half_even(top, d);
    assert(m >= 1);
    doubled_grows(m, 119, f);
    doubled_is_product(m, 119);
    two_to_119();
    assert(m * doubled(1, 119) >= doubled(1, 119)) by (nonlinear_arith)
        requires
            m >= 1,
    ;
}

/// Powers of two are multiplied by adding their exponents.
pub proof fn powers_add(a: nat, b: nat)
    ensures
        doubled(1, a + b) == doubled(1, a) * doubled(1, b),
    decreases b,
{
    let x = doubled(1, a);
    if b == 0 {
        assert(x * 1 == x) by (nonlinear_arith);
    } else {
        powers_add(a, (b - 1) as nat);
        doubled_step(1, (a + b - 1) as nat);
        doubled_step(1, (b - 1) as nat);
        let y = doubled(1, (b - 1) as nat);
        assert(2 * (x * y) == x * (2 * y)) by (nonlinear_arith);
    }
}

/// The span is the least power of two that will do.
pub proof fn span_is_least(n: nat, d: nat, e: nat)
    requires
        d > 0,
        n < doubled(d, e),
    ensures
        span(n, d) <= e,
    decreases e,
{
    if n >= d {
        span_is_least(n, 2 * d, (e - 1) as nat);
    }
}

/// The quotient of `top` by `d`, from the quotient and remainder themselves.
pub proof fn quotient_is(top: nat, d: nat, q: nat, r: nat)
    requires
        top == q * d + r,
        r < d,
    ensures
        top / d == q,
        top % d == r,
{
    vstd::arithmetic::div_mod::lemma_fundamental_div_mod_converse(
        top as int,
        d as int,
        q as int,
        r as int,
    );
}

/// The integer nearest to `n` times `2^53` over `d`, for `n` below `d`.
fn significand(n: BigNat, d: &mut BigNat) -> (m: u64)
    requires
        n@ < old(d)@,
    ensures
        m == half_even(doubled(n@, 53), old(d)@),
        final(d)@ == old(d)@,
        m <= 0x20_0000_0000_0000,
{
    let ghost start = n@;
    let ghost div = d@;
    let mut rest = n;
    let mut quotient: u64 = 0;
    let mut i: u64 = 0;
    proof {
        assert(doubled(start, 0) == start);
        assert(0 * div == 0) by (nonlinear_arith);
        assert(doubled(1, 53) == 0x20_0000_0000_0000) by {
            reveal_with_fuel(doubled, 54);
        }
    }
    while i < 53
        invariant
            i <= 53,
            d@ == div,
            rest@ < div,
            doubled(start, i as nat) == quotient * div + rest@,
            quotient + 1 <= doubled(1, i as nat),
            doubled(1, 53) == 0x20_0000_0000_0000,
        decreases 53 - i,
    {
        proof {
            doubled_step(start, i as nat);
            doubled_step(1, i as nat);
            doubled_grows(1, i as nat + 1, 53);
        }
        let ghost before = rest@;
        let ghost q = quotient;
        rest.scale_up(2, 0);
        if rest.reaches(d) {
            rest.reduce(d);
            quotient = 2 * quotient + 1;
            proof {
                assert(2 * (q * div + before) == (2 * q + 1) * div + (2 * before - div))
                    by (nonlinear_arith);
            }
        } else {
            quotient = 2 * quotient;
            proof {
                assert(2 * (q * div + before) == (2 * q) * div + 2 * before) by (nonlinear_arith);
            }
        }
        i = i + 1;
    }
    proof {
        quotient_is(doubled(start, 53), div, quotient as nat, rest@);
    }
    rest.scale_up(2, 0);
    let reaches = rest.reaches(d);
    let reached = d.reaches(&mut rest);
    if (reaches && !reached) || (reaches && reached && quotient % 2 == 1) {
        quotient + 1
    } else {
        quotient
    }
}

/// The nearest byte count of `p / q`.
fn round_to_bytes(p: BigNat, q: BigNat) -> (r: Option<u64>)
    requires
        q@ > 0,
    ensures
        r == nearest_bytes(p@, q@),
{
    let ghost num = p@;
    let ghost den = q@;
    let mut n = p;
    let mut d = q;
    n.scale_up(2, 0);
    let mut quarter = n.copy();
    quarter.scale_up(2, 0);
    if !quarter.reaches(&mut d) {
        return Some(0);
    }
    let mut f: u64 = 0;
    while n.reaches(&mut d)
        invariant
            num == p@,
            den == q@,
            den > 0,
            n@ == 2 * num,
            d@ == doubled(den, f as nat),
            d@ > 0,
            span(n@, den) == f + span(n@, d@),
            f <= 119,
        ensures
            n@ < d@,
            n@ == 2 * num,
            d@ == doubled(den, f as nat),
            span(n@, den) == f,
        decreases span(n@, d@),
    {
        if f >= 119 {
            proof {
                doubled_grows(den, 119, f as nat);
                too_large(num, den);
            }
            return None;
        }
        proof {
            doubled_step(den, f as nat);
        }
        d.scale_up(2, 0);
        f = f + 1;
    }
    let m = significand(n, &mut d);
    let mut fixed: u128 = m as u128;
    let mut left: u64 = f;
    while left > 0
        invariant
            num == p@,
            den == q@,
            doubled(fixed as nat, left as nat) == doubled(m as nat, f as nat),
            nearest_bytes(num, den) is None <==> doubled(m as nat, f as nat)
                > 0x40_0000_0000_0000_0000_0000_0000_0000,
            fixed <= 0x40_0000_0000_0000_0000_0000_0000_0000,
        decreases left,
    {
        left = left - 1;
        fixed = fixed * 2;
        if fixed > 0x40_0000_0000_0000_0000_0000_0000_0000 {
            proof {
                doubled_grows(fixed as nat, left as nat, left as nat);
            }
            return None;
        }
    }
    let whole = (fixed + 0x20_0000_0000_0000) / 0x40_0000_0000_0000;
    if whole > u64::MAX as u128 {
        Some(u64::MAX)
    } else {
        Some(whole as u64)
    }
}

// ------------------------------------------------------------------ numerals

/// A decimal numeral: its significant digits and a power of ten.
pub struct Numeral {
    pub digits: Seq<char>,
    pub exponent: int,
}

/// The exponent part of a numeral: nothing, or a letter `e`, an optional sign
/// and at least one digit.
pub open spec fn exponent_in(tail: Seq<char>) -> Option<int> {
    if tail.len() == 0 {
        Some(0)
    } else if tail[0] != 'e' && tail[0] != 'E' {
        None
    } else {
        let signed = tail.len() > 1 && (tail[1] == '+' || tail[1] == '-');
        let digits = if signed {
            tail.skip(2)
        } else {
            tail.skip(1)
        };
        if digits.len() > 0 && text::all_digits(digits) {
            Some(
                if signed && tail[1] == '-' {
                    -(text::decimal_value(digits) as int)
                } else {
                    text::decimal_value(digits) as int
                },
            )
        } else {
            None
        }
    }
}

/// The numeral that a text is: digits with at most one full stop among them,
/// at least one digit, and an optional exponent.
pub open spec fn numeral(text: Seq<char>) -> Option<Numeral> {
    let whole = text::run(text, CharClass::Digit) as int;
    let dotted = whole < text.len() && text[whole] == '.';
    let from = if dotted {
        whole + 1
    } else {
        whole
    };
    let fraction = if dotted {
        text::run(text.skip(from), CharClass::Digit) as int
    } else {
        0
    };
    if whole + fraction == 0 {
        None
    } else {
        match exponent_in(text.skip(from + fraction)) {
            Some(exponent) => Some(
                Numeral {
                    digits: text.take(whole) + text.subrange(from, from + fraction),
                    exponent: exponent - fraction,
                },
            ),
            None => None,
        }
    }
}

/// The byte count of a numeral that counts units of 1024 to the power `power`.
pub open spec fn bytes_of(n: Numeral, power: nat) -> Option<u64> {
    let units = text::decimal_value(n.digits) * kib_to(power);
    if n.exponent >= 0 {
        nearest_bytes(units * ten_to(n.exponent as nat), 1)
    } else {
        nearest_bytes(units, ten_to(-n.exponent as nat))
    }
}

proof fn ten_to_grows(k: nat, l: nat)
    requires
        k <= l,
    ensures
        1 <= ten_to(k) <= ten_to(l),
    decreases l,
{
    if k < l {
        ten_to_grows(k, (l - 1) as nat);
    } else if k > 0 {
        ten_to_grows((k - 1) as nat, (k - 1) as nat);
    }
}

proof fn ten_to_sum(k: nat, l: nat)
    ensures
        ten_to(k + l) == ten_to(k) * ten_to(l),
    decreases l,
{
    if l == 0 {
        assert(ten_to(k) * 1 == ten_to(k)) by (nonlinear_arith);
    } else {
        ten_to_sum(k, (l - 1) as nat);
        let a = ten_to(k);
        let b = ten_to((l - 1) as nat);
        assert(10 * (a * b) == a * (10 * b)) by (nonlinear_arith);
    }
}

proof fn digits_below_ten_to(text: Seq<char>)
    requires
        text::all_digits(text),
    ensures
        text::decimal_value(text) < ten_to(text.len()),
    decreases text.len(),
{
    if text.len() > 0 {
        assert forall|i: int| 0 <= i < text.drop_last().len() implies text::is_digit(
            #[trigger] text.drop_last()[i],
        ) by {
            assert(text.drop_last()[i] == text[i]);
        }
        digits_below_ten_to(text.drop_last());
        assert(text::is_digit(text[text.len() - 1]));
    }
}

proof fn units_are_powers(power: nat)
    ensures
        kib_to(power) == doubled(1, 10 * power),
    decreases power,
{
    if power > 0 {
        let rest = (power - 1) as nat;
        units_are_powers(rest);
        powers_add(10, 10 * rest);
        assert(doubled(1, 10) == 1024) by {
            reveal_with_fuel(doubled, 11);
        }
    }
}

proof fn units_bounds(power: nat)
    requires
        power <= 5,
    ensures
        1 <= kib_to(power) <= 0x4_0000_0000_0000,
{
    reveal_with_fuel(kib_to, 6);
}

proof fn ten_to_41()
    ensures
        ten_to(41) == 100_000_000_000_000_000_000_000_000_000_000_000_000_000,
{
    reveal_with_fuel(ten_to, 42);
}

/// A count with many digits before the point is too large.
proof fn huge_numeral(v: nat, size: nat, power: nat, exponent: int)
    requires
        size >= 1,
        v >= ten_to((size - 1) as nat),
        power <= 5,
        size - 1 + exponent > 40,
    ensures
        exponent >= 0 ==> nearest_bytes(
            (v * kib_to(power)) * ten_to(exponent as nat),
            1,
        ) is None,
        exponent < 0 ==> nearest_bytes(v * kib_to(power), ten_to(-exponent as nat)) is None,
{
    units_bounds(power);
    let k = kib_to(power);
    let lead = ten_to((size - 1) as nat);
    two_to_119();
    ten_to_41();
    assert(v * k >= lead) by (nonlinear_arith)
        requires
            v >= lead,
            k >= 1,
    ;
    if exponent >= 0 {
        let x = ten_to(exponent as nat);
        let p = (v * k) * x;
        ten_to_sum((size - 1) as nat, exponent as nat);
        ten_to_grows(41, (size - 1 + exponent) as nat);
        assert(p >= lead * x) by (nonlinear_arith)
            requires
                p == (v * k) * x,
                v * k >= lead,
        ;
        too_large(p, 1);
    } else {
        let q = ten_to(-exponent as nat);
        ten_to_sum(41, -exponent as nat);
        ten_to_grows((41 - exponent) as nat, (size - 1) as nat);
        ten_to_grows(0, -exponent as nat);
        doubled_is_product(q, 119);
        assert(2 * (v * k) >= q * doubled(1, 119)) by (nonlinear_arith)
            requires
                v * k >= lead,
                lead >= 100_000_000_000_000_000_000_000_000_000_000_000_000_000 * q,
                doubled(1, 119) == 0x80_0000_0000_0000_0000_0000_0000_0000,
                q >= 1,
        ;
        too_large(v * k, q);
    }
}

/// A count with many zeros behind the point is no whole byte.
proof fn tiny_numeral(v: nat, size: nat, power: nat, shift: nat)
    requires
        v < ten_to(size),
        power <= 5,
        shift > size + 40,
    ensures
        nearest_bytes(v * kib_to(power), ten_to(shift)) == Some(0u64),
{
    units_bounds(power);
    let k = kib_to(power);
    let a = ten_to(size);
    let b = ten_to((shift - size) as nat);
    ten_to_sum(size, (shift - size) as nat);
    ten_to_grows(20, (shift - size) as nat);
    assert(ten_to(20) == 100_000_000_000_000_000_000) by {
        reveal_with_fuel(ten_to, 21);
    }
    assert(4 * (v * k) < a * b) by (nonlinear_arith)
        requires
            v < a,
            k <= 0x4_0000_0000_0000,
            k >= 1,
            b >= 100_000_000_000_000_000_000,
    ;
}

// ------------------------------------------------------------- far digits

/// The byte count of `p / q` by what it is in units of `2^-55`: how many whole ones
/// it holds, and whether it holds nothing else.
spec fn rounded(count: nat, exact: bool) -> Option<u64> {
    if count < 0x20_0000_0000_0000 {
        Some(0)
    } else {
        let f = span(count, 0x40_0000_0000_0000);
        let half = doubled(1, f);
        let q = count / (2 * half);
        let r = count % (2 * half);
        let significand = if r > half || (r == half && (!exact || q % 2 == 1)) {
            q + 1
        } else {
            q
        };
        let fixed = doubled(significand, f);
        if fixed > 0x40_0000_0000_0000_0000_0000_0000_0000 {
            None
        } else {
            let whole = (fixed + 0x20_0000_0000_0000) / 0x40_0000_0000_0000;
            Some(
                if whole > u64::MAX {
                    u64::MAX
                } else {
                    whole as u64
                },
            )
        }
    }
}

proof fn spans_agree(n: nat, d: nat, m: nat, e: nat)
    requires
        d > 0,
        e > 0,
        forall|f: nat| n < #[trigger] doubled(d, f) <==> m < doubled(e, f),
    ensures
        span(n, d) == span(m, e),
{
    span_bounds(n, d);
    span_bounds(m, e);
    span_is_least(m, e, span(n, d));
    assert(n < doubled(d, span(m, e)));
    span_is_least(n, d, span(m, e));
}

proof fn below_by_quotient(t: nat, q: nat, m: nat)
    requires
        q > 0,
    ensures
        t < q * m <==> t / q < m,
{
    let c = t / q;
    let r = t % q;
    vstd::arithmetic::div_mod::lemma_fundamental_div_mod(t as int, q as int);
    assert(t < q * m <==> c < m) by (nonlinear_arith)
        requires
            t == q * c + r,
            0 <= r < q,
    ;
}

/// What is counted in units of `2^-55`.
proof fn units_are(p: nat)
    ensures
        doubled(p, 55) == p * 0x80_0000_0000_0000,
        doubled(2 * p, 53) == p * 0x40_0000_0000_0000,
{
    doubled_is_product(p, 55);
    doubled_is_product(2 * p, 53);
    assert(doubled(1, 55) == 0x80_0000_0000_0000) by {
        reveal_with_fuel(doubled, 56);
    }
    assert(doubled(1, 53) == 0x20_0000_0000_0000) by {
        reveal_with_fuel(doubled, 54);
    }
}

proof fn spans_by_units(p: nat, q: nat)
    requires
        q > 0,
    ensures
        span(2 * p, q) == span(doubled(p, 55) / q, 0x40_0000_0000_0000),
{
    let t = doubled(p, 55);
    let c = t / q;
    units_are(p);
    assert forall|f: nat| 2 * p < #[trigger] doubled(q, f) <==> c < doubled(
        0x40_0000_0000_0000,
        f,
    ) by {
        doubled_is_product(q, f);
        doubled_is_product(0x40_0000_0000_0000, f);
        let x = doubled(1, f);
        below_by_quotient(t, q, 0x40_0000_0000_0000 * x);
        assert(q * (0x40_0000_0000_0000 * x) == 0x40_0000_0000_0000 * (q * x))
            by (nonlinear_arith);
    }
    spans_agree(2 * p, q, c, 0x40_0000_0000_0000);
}

/// Rounding `top` over `q * half` to the even neighbour, by how often `q` goes into
/// twice `top` and whether anything is left.
proof fn halves_by_units(top: nat, q: nat, half: nat)
    requires
        q > 0,
        half > 0,
    ensures
        ({
            let c = (2 * top) / q;
            let r = c % (2 * half);
            let whole = c / (2 * half);
            half_even(top, q * half) == if r > half || (r == half && ((2 * top) % q != 0 || whole
                % 2 == 1)) {
                whole + 1
            } else {
                whole
            }
        }),
{
    let t = 2 * top;
    let c = t / q;
    let rest = t % q;
    vstd::arithmetic::div_mod::lemma_fundamental_div_mod(t as int, q as int);
    let a = c / (2 * half);
    let b = c % (2 * half);
    vstd::arithmetic::div_mod::lemma_fundamental_div_mod(c as int, (2 * half) as int);
    let d = q * half;
    assert(2 * (a * d) + (b * q + rest) == t) by (nonlinear_arith)
        requires
            t == q * c + rest,
            c == (2 * half) * a + b,
            d == q * half,
    ;
    assert(0 <= b * q + rest < 2 * d && d > 0) by (nonlinear_arith)
        requires
            0 <= b < 2 * half,
            0 <= rest < q,
            d == q * half,
            half > 0,
    ;
    let rem = (top - a * d) as nat;
    assert(2 * rem == b * q + rest);
    quotient_is(top, d, a, rem);
    assert((2 * rem > d <==> b > half || (b == half && rest > 0)) && (2 * rem == d <==> b == half
        && rest == 0)) by (nonlinear_arith)
        requires
            2 * rem == b * q + rest,
            0 <= rest < q,
            d == q * half,
    ;
}

/// Only the whole units of `2^-55` and whether anything is left decide.
proof fn units_decide(p: nat, q: nat)
    requires
        q > 0,
    ensures
        nearest_bytes(p, q) == rounded(doubled(p, 55) / q, doubled(p, 55) % q == 0),
{
    units_are(p);
    below_by_quotient(doubled(p, 55), q, 0x20_0000_0000_0000);
    if 4 * p >= q {
        spans_by_units(p, q);
        let f = span(2 * p, q);
        doubled_is_product(q, f);
        doubled_grows(1, 0, f);
        halves_by_units(doubled(2 * p, 53), q, doubled(1, f));
    }
}

/// A power of ten is a multiple of every power of two up to its own exponent.
proof fn tens_hold_twos(ten: nat, two: nat) -> (w: nat)
    requires
        two <= ten,
    ensures
        w > 0,
        ten_to(ten) == w * doubled(1, two),
    decreases ten,
{
    if two == 0 {
        ten_to_grows(0, ten);
        let w = ten_to(ten);
        assert(w * 1 == w) by (nonlinear_arith);
        w
    } else {
        let rest = tens_hold_twos((ten - 1) as nat, (two - 1) as nat);
        let x = doubled(1, (two - 1) as nat);
        doubled_step(1, (two - 1) as nat);
        assert(10 * (rest * x) == (5 * rest) * (2 * x)) by (nonlinear_arith);
        5 * rest
    }
}

/// What `front` followed by `digits` more digits, which are `back`, counts in units
/// of `2^-55`.
proof fn units_of_cut(front: nat, back: nat, digits: nat, power: nat, places: nat, w: nat)
    requires
        back < ten_to(digits),
        w > 0,
        ten_to(places) == w * doubled(1, 10 * power + 55),
    ensures
        ({
            let t = doubled((front * ten_to(digits) + back) * kib_to(power), 55);
            let q = ten_to(places + digits);
            t / q == front / w && (t % q == 0 <==> front % w == 0 && back == 0)
        }),
{
    let x = ten_to(digits);
    let e = doubled(1, 10 * power + 55);
    let v = front * x + back;
    let k = kib_to(power);
    let t = doubled(v * k, 55);
    let q = ten_to(places + digits);
    ten_to_grows(0, digits);
    ten_to_sum(places, digits);
    units_are_powers(power);
    powers_add(10 * power, 55);
    doubled_is_product(v * k, 55);
    doubled_grows(1, 0, 10 * power + 55);
    assert(t == v * e) by (nonlinear_arith)
        requires
            t == (v * k) * doubled(1, 55),
            e == k * doubled(1, 55),
    ;
    let a = front / w;
    let b = front % w;
    vstd::arithmetic::div_mod::lemma_fundamental_div_mod(front as int, w as int);
    let rest = b * x + back;
    let r = rest * e;
    assert(q == (w * e) * x);
    assert(t == a * q + r) by (nonlinear_arith)
        requires
            t == v * e,
            v == front * x + back,
            front == w * a + b,
            q == (w * e) * x,
            r == rest * e,
            rest == b * x + back,
    ;
    assert(0 <= r < q) by (nonlinear_arith)
        requires
            r == rest * e,
            rest == b * x + back,
            0 <= b < w,
            0 <= back < x,
            q == (w * e) * x,
            e >= 1,
    ;
    quotient_is(t, q, a, r as nat);
    assert(r == 0 <==> b == 0 && back == 0) by (nonlinear_arith)
        requires
            r == rest * e,
            rest == b * x + back,
            e >= 1,
            x >= 1,
            0 <= b,
            0 <= back,
    ;
}

/// Digits far behind the point matter only by whether they are all zero: one digit
/// in their place does for them.
proof fn far_digits_are_one(front: nat, back: nat, digits: nat, power: nat)
    requires
        back < ten_to(digits),
        power <= 5,
    ensures
        nearest_bytes((front * ten_to(digits) + back) * kib_to(power), ten_to(110 + digits))
            == nearest_bytes(
            (front * 10 + (if back == 0 {
                0nat
            } else {
                1nat
            })) * kib_to(power),
            ten_to(111),
        ),
{
    let w = tens_hold_twos(110, 10 * power + 55);
    let mark: nat = if back == 0 {
        0
    } else {
        1
    };
    assert(ten_to(1) == 10) by {
        reveal_with_fuel(ten_to, 2);
    }
    units_of_cut(front, back, digits, power, 110, w);
    units_of_cut(front, mark, 1, power, 110, w);
    ten_to_grows(0, 110 + digits);
    ten_to_grows(0, 111);
    units_decide((front * ten_to(digits) + back) * kib_to(power), ten_to(110 + digits));
    units_decide((front * 10 + mark) * kib_to(power), ten_to(111));
}

// ------------------------------------------------------------ reading digits

proof fn value_splits(digits: Seq<char>, at: int)
    requires
        0 <= at <= digits.len(),
    ensures
        text::decimal_value(digits) == text::decimal_value(digits.take(at)) * ten_to(
            (digits.len() - at) as nat,
        ) + text::decimal_value(digits.skip(at)),
    decreases digits.len() - at,
{
    let front = text::decimal_value(digits.take(at));
    if at == digits.len() {
        assert(digits.take(at) =~= digits);
        assert(digits.skip(at) =~= Seq::empty());
        assert(front * 1 == front) by (nonlinear_arith);
    } else {
        let rest = digits.drop_last();
        value_splits(rest, at);
        assert(rest.take(at) =~= digits.take(at));
        assert(digits.skip(at).drop_last() =~= rest.skip(at));
        assert(digits.skip(at).last() == digits.last());
        let x = ten_to((rest.len() - at) as nat);
        assert(10 * (front * x) == front * (10 * x)) by (nonlinear_arith);
    }
}

proof fn zeros_are_nothing(digits: Seq<char>, count: int)
    requires
        0 <= count <= digits.len(),
        forall|i: int| 0 <= i < count ==> #[trigger] digits[i] == '0',
    ensures
        text::decimal_value(digits.take(count)) == 0,
    decreases count,
{
    if count > 0 {
        zeros_are_nothing(digits, count - 1);
        assert(digits.take(count).drop_last() =~= digits.take(count - 1));
    } else {
        assert(digits.take(count) =~= Seq::empty());
    }
}

proof fn digits_in_part(digits: Seq<char>, from: int, to: int)
    requires
        text::all_digits(digits),
        0 <= from <= to <= digits.len(),
    ensures
        text::all_digits(digits.subrange(from, to)),
        text::all_digits(digits.take(to)),
        text::all_digits(digits.skip(from)),
{
    let part = digits.subrange(from, to);
    assert forall|i: int| 0 <= i < part.len() implies text::is_digit(#[trigger] part[i]) by {
        assert(part[i] == digits[from + i]);
    }
    let front = digits.take(to);
    assert forall|i: int| 0 <= i < front.len() implies text::is_digit(#[trigger] front[i]) by {
        assert(front[i] == digits[i]);
    }
    let back = digits.skip(from);
    assert forall|i: int| 0 <= i < back.len() implies text::is_digit(#[trigger] back[i]) by {
        assert(back[i] == digits[from + i]);
    }
}

/// Where the first digit that is not zero stands says how large a number is.
proof fn first_digit_tells(digits: Seq<char>, first: int)
    requires
        text::all_digits(digits),
        0 <= first < digits.len(),
        forall|i: int| 0 <= i < first ==> #[trigger] digits[i] == '0',
        digits[first] != '0',
    ensures
        ten_to((digits.len() - first - 1) as nat) <= text::decimal_value(digits) < ten_to(
            (digits.len() - first) as nat,
        ),
{
    digits_in_part(digits, first, digits.len() as int);
    zeros_are_nothing(digits, first);
    value_splits(digits, first);
    digits_below_ten_to(digits.skip(first));
    let x = ten_to((digits.len() - first) as nat);
    assert(0 * x == 0) by (nonlinear_arith);
    value_splits(digits, first + 1);
    assert(digits.take(first + 1).drop_last() =~= digits.take(first));
    assert(digits.take(first + 1).last() == digits[first]);
    assert(text::is_digit(digits[first]));
    let lead = text::decimal_value(digits.take(first + 1));
    let y = ten_to((digits.len() - first - 1) as nat);
    assert(lead >= 1);
    assert(lead * y >= y) by (nonlinear_arith)
        requires
            lead >= 1,
            y >= 0,
    ;
}

/// Reads an exponent's digits. Past two to the power of 100 the exact value no
/// longer matters, and a number at least that large stands for it.
fn read_exponent(chars: &[char], from: usize) -> (r: u128)
    requires
        from <= chars@.len(),
        text::all_digits(chars@.skip(from as int)),
    ensures
        r <= 0x200_0000_0000_0000_0000_0000_0000,
        r <= text::decimal_value(chars@.skip(from as int)),
        r == text::decimal_value(chars@.skip(from as int)) || r >= 0x10_0000_0000_0000_0000_0000_0000,
{
    let ghost all = chars@.skip(from as int);
    let mut value: u128 = 0;
    let mut i: usize = from;
    while i < chars.len()
        invariant
            from <= i <= chars@.len(),
            all == chars@.skip(from as int),
            text::all_digits(all),
            value == text::decimal_value(all.take(i - from)),
            value <= 0x10_0000_0000_0000_0000_0000_0000,
        decreases chars@.len() - i,
    {
        proof {
            assert(all.take(i - from + 1).drop_last() =~= all.take(i - from));
            assert(text::is_digit(all[i - from]));
            text::decimal_value_grows(all, i - from + 1);
        }
        let digit = (chars[i] as u8 - 48) as u128;
        value = value * 10 + digit;
        i = i + 1;
        if value > 0x10_0000_0000_0000_0000_0000_0000 {
            return value;
        }
    }
    proof {
        assert(all.take(all.len() as int) =~= all);
    }
    value
}

/// A numeral that was read: the positions of its digits, and its power of ten.
struct Reading {
    whole_end: usize,
    from: usize,
    end: usize,
    exponent: i128,
}

impl Reading {
    spec fn describes(&self, text: Seq<char>, n: Numeral) -> bool {
        &&& self.whole_end <= self.from <= self.end <= text.len()
        &&& n.digits == text.take(self.whole_end as int) + text.subrange(
            self.from as int,
            self.end as int,
        )
        &&& text::all_digits(n.digits)
        &&& (self.exponent == n.exponent || (self.exponent > 0x1_0000_0000_0000_0000_0000
            && n.exponent >= self.exponent) || (self.exponent < -0x1_0000_0000_0000_0000_0000
            && n.exponent <= self.exponent))
        &&& -0x1000_0000_0000_0000_0000_0000_0000 <= self.exponent
            <= 0x1000_0000_0000_0000_0000_0000_0000
    }
}

/// Whether all characters from `from` on are digits.
fn digits_from(chars: &[char], from: usize) -> (r: bool)
    requires
        from <= chars@.len(),
    ensures
        r == text::all_digits(chars@.skip(from as int)),
{
    let end = run_end(chars, from, CharClass::Digit);
    proof {
        let rest = chars@.skip(from as int);
        text::run_is_maximal(rest, CharClass::Digit);
        if end < chars@.len() {
            assert(!text::is_digit(rest[end - from]));
        }
    }
    end == chars.len()
}

fn read_tail(chars: &[char], at: usize) -> (r: Option<i128>)
    requires
        at <= chars@.len(),
    ensures
        match r {
            Some(e) => exponent_in(chars@.skip(at as int)) matches Some(x) && (e == x || (e
                >= 0x10_0000_0000_0000_0000_0000_0000 && x >= e) || (e
                <= -0x10_0000_0000_0000_0000_0000_0000 && x <= e))
                && -0x200_0000_0000_0000_0000_0000_0000 <= e
                <= 0x200_0000_0000_0000_0000_0000_0000,
            None => exponent_in(chars@.skip(at as int)) is None,
        },
{
    let ghost tail = chars@.skip(at as int);
    if at == chars.len() {
        return Some(0);
    }
    if chars[at] != 'e' && chars[at] != 'E' {
        return None;
    }
    let after = at + 1;
    let signed = after < chars.len() && (chars[after] == '+' || chars[after] == '-');
    let negative = signed && chars[after] == '-';
    let from = if signed {
        after + 1
    } else {
        after
    };
    proof {
        assert(tail.skip(from - at) =~= chars@.skip(from as int));
        if after < chars@.len() {
            assert(tail[1] == chars@[after as int]);
        }
    }
    if from == chars.len() || !digits_from(chars, from) {
        return None;
    }
    let magnitude = read_exponent(chars, from);
    if negative {
        Some(-(magnitude as i128))
    } else {
        Some(magnitude as i128)
    }
}

proof fn run_is_digits(text: Seq<char>, from: int)
    requires
        0 <= from <= text.len(),
    ensures
        0 <= text::run(text.skip(from), CharClass::Digit) <= text.len() - from,
        text::all_digits(text.subrange(from, from + text::run(text.skip(from), CharClass::Digit))),
{
    let rest = text.skip(from);
    text::run_is_maximal(rest, CharClass::Digit);
    let part = text.subrange(from, from + text::run(rest, CharClass::Digit));
    assert forall|i: int| 0 <= i < part.len() implies text::is_digit(#[trigger] part[i]) by {
        assert(part[i] == rest[i]);
        assert(CharClass::Digit.has(rest[i]));
    }
}

fn read_numeral(chars: &[char]) -> (r: Option<Reading>)
    ensures
        match r {
            Some(reading) => numeral(chars@) matches Some(n) && reading.describes(chars@, n),
            None => numeral(chars@) is None,
        },
{
    proof {
        assert(chars@.skip(0) =~= chars@);
        run_is_digits(chars@, 0);
    }
    let whole = run_end(chars, 0, CharClass::Digit);
    let dotted = whole < chars.len() && chars[whole] == '.';
    let from = if dotted {
        whole + 1
    } else {
        whole
    };
    proof {
        run_is_digits(chars@, from as int);
        assert(chars@.subrange(0, whole as int) =~= chars@.take(whole as int));
    }
    let end = if dotted {
        run_end(chars, from, CharClass::Digit)
    } else {
        from
    };
    if whole == 0 && end == from {
        return None;
    }
    match read_tail(chars, end) {
        Some(e) => {
            let exponent = e - ((end - from) as i128);
            proof {
                let fraction = chars@.subrange(from as int, end as int);
                assert(text::all_digits(fraction));
                let digits = chars@.take(whole as int) + fraction;
                assert forall|i: int| 0 <= i < digits.len() implies text::is_digit(
                    #[trigger] digits[i],
                ) by {
                    if i < whole {
                        assert(digits[i] == chars@.take(whole as int)[i]);
                    } else {
                        assert(digits[i] == fraction[i - whole]);
                    }
                }
            }
            Some(Reading { whole_end: whole, from, end, exponent })
        },
        None => None,
    }
}

/// The digits of a numeral that was read, without the point.
fn gather(chars: &[char], reading: &Reading) -> (r: Vec<char>)
    requires
        reading.whole_end <= reading.from <= reading.end <= chars@.len(),
    ensures
        r@ == chars@.take(reading.whole_end as int) + chars@.subrange(
            reading.from as int,
            reading.end as int,
        ),
{
    let mut out = slice_chars(chars, 0, reading.whole_end);
    let ghost whole = chars@.take(reading.whole_end as int);
    let ghost part = chars@.subrange(reading.from as int, reading.end as int);
    let mut i: usize = reading.from;
    proof {
        assert(out@ =~= whole + part.take(0));
    }
    while i < reading.end
        invariant
            reading.from <= i <= reading.end <= chars@.len(),
            part == chars@.subrange(reading.from as int, reading.end as int),
            out@ == whole + part.take(i - reading.from),
        decreases reading.end - i,
    {
        out.push(chars[i]);
        proof {
            assert(out@ =~= whole + part.take(i - reading.from + 1));
        }
        i = i + 1;
    }
    proof {
        assert(part.take(part.len() as int) =~= part);
    }
    out
}

/// Where the first digit stands that is not zero; the end where there is none.
fn first_nonzero(digits: &Vec<char>) -> (r: usize)
    ensures
        r <= digits@.len(),
        forall|i: int| 0 <= i < r ==> #[trigger] digits@[i] == '0',
        r < digits@.len() ==> digits@[r as int] != '0',
{
    let mut i: usize = 0;
    while i < digits.len() && digits[i] == '0'
        invariant
            i <= digits@.len(),
            forall|j: int| 0 <= j < i ==> #[trigger] digits@[j] == '0',
        decreases digits@.len() - i,
    {
        i = i + 1;
    }
    i
}

/// The number that the digits up to `to` denote, of which those up to `from` are
/// zero.
fn value_of(digits: &Vec<char>, from: usize, to: usize) -> (r: BigNat)
    requires
        from <= to <= digits@.len(),
        text::all_digits(digits@),
        forall|i: int| 0 <= i < from ==> #[trigger] digits@[i] == '0',
    ensures
        r@ == text::decimal_value(digits@.take(to as int)),
{
    let mut value = BigNat::new(0);
    let mut i: usize = from;
    proof {
        zeros_are_nothing(digits@, from as int);
    }
    while i < to
        invariant
            from <= i <= to <= digits@.len(),
            text::all_digits(digits@),
            value@ == text::decimal_value(digits@.take(i as int)),
        decreases to - i,
    {
        proof {
            assert(digits@.take(i as int + 1).drop_last() =~= digits@.take(i as int));
            assert(text::is_digit(digits@[i as int]));
        }
        let digit = digits[i] as u32 - 48;
        value.scale_up(10, digit);
        i = i + 1;
    }
    value
}

/// Whether the digits from `from` on are all zero.
fn rest_is_zero(digits: &Vec<char>, from: usize) -> (r: bool)
    requires
        from <= digits@.len(),
        text::all_digits(digits@),
    ensures
        r == (text::decimal_value(digits@.skip(from as int)) == 0),
{
    let ghost rest = digits@.skip(from as int);
    let mut i: usize = from;
    while i < digits.len()
        invariant
            from <= i <= digits@.len(),
            rest == digits@.skip(from as int),
            text::all_digits(digits@),
            forall|j: int| 0 <= j < i - from ==> #[trigger] rest[j] == '0',
        decreases digits@.len() - i,
    {
        if digits[i] != '0' {
            proof {
                digits_in_part(digits@, from as int, digits@.len() as int);
                first_digit_tells(rest, i - from);
                ten_to_grows(0, (rest.len() - (i - from) - 1) as nat);
            }
            return false;
        }
        i = i + 1;
    }
    proof {
        zeros_are_nothing(rest, rest.len() as int);
        assert(rest.take(rest.len() as int) =~= rest);
    }
    true
}

/// Multiplies by 1024 to the power of `power`.
fn times_units(value: &mut BigNat, power: u32)
    ensures
        final(value)@ == old(value)@ * kib_to(power as nat),
{
    let ghost start = value@;
    let mut i: u32 = 0;
    proof {
        assert(start * 1 == start) by (nonlinear_arith);
    }
    while i < power
        invariant
            i <= power,
            start == old(value)@,
            value@ == start * kib_to(i as nat),
        decreases power - i,
    {
        proof {
            let k = kib_to(i as nat);
            assert((start * k) * 1024 == start * (1024 * k)) by (nonlinear_arith);
        }
        value.scale_up(1024, 0);
        i = i + 1;
    }
}

/// Multiplies by ten `times` times.
fn times_ten(value: &mut BigNat, times: u128)
    ensures
        final(value)@ == old(value)@ * ten_to(times as nat),
{
    let ghost start = value@;
    let mut i: u128 = 0;
    proof {
        assert(start * 1 == start) by (nonlinear_arith);
    }
    while i < times
        invariant
            i <= times,
            start == old(value)@,
            value@ == start * ten_to(i as nat),
        decreases times - i,
    {
        proof {
            let a = ten_to(i as nat);
            assert((start * a) * 10 == start * (10 * a)) by (nonlinear_arith);
        }
        value.scale_up(10, 0);
        i = i + 1;
    }
}

/// The byte count of digits with a power of ten below zero, neither far too large
/// nor far too small. Of the digits far behind the point only one is kept.
fn fraction_bytes(digits: &Vec<char>, first: usize, shift: u128, power: u32) -> (r: Option<u64>)
    requires
        text::all_digits(digits@),
        first < digits@.len(),
        forall|i: int| 0 <= i < first ==> #[trigger] digits@[i] == '0',
        shift <= digits@.len() - first + 40,
        power <= 5,
    ensures
        r == nearest_bytes(
            text::decimal_value(digits@) * kib_to(power as nat),
            ten_to(shift as nat),
        ),
{
    let mut one = BigNat::new(1);
    if shift <= 110 {
        let mut value = value_of(digits, first, digits.len());
        times_units(&mut value, power);
        times_ten(&mut one, shift);
        proof {
            assert(digits@.take(digits@.len() as int) =~= digits@);
            ten_to_grows(shift as nat, shift as nat);
            assert(1 * ten_to(shift as nat) == ten_to(shift as nat)) by (nonlinear_arith);
        }
        return round_to_bytes(value, one);
    }
    let cut = (shift - 110) as usize;
    let keep = digits.len() - cut;
    let mut value = value_of(digits, first, keep);
    let ghost front = value@;
    let ghost back = text::decimal_value(digits@.skip(keep as int));
    let mark: u32 = if rest_is_zero(digits, keep) {
        0
    } else {
        1
    };
    value.scale_up(10, mark);
    times_units(&mut value, power);
    times_ten(&mut one, 111);
    proof {
        digits_in_part(digits@, keep as int, digits@.len() as int);
        digits_below_ten_to(digits@.skip(keep as int));
        value_splits(digits@, keep as int);
        far_digits_are_one(front, back, cut as nat, power as nat);
        ten_to_grows(111, 111);
        assert(1 * ten_to(111) == ten_to(111)) by (nonlinear_arith);
    }
    round_to_bytes(value, one)
}

/// The byte count of the numeral `chars` in units of 1024 to the power
/// `power`, where it is a numeral and the count fits.
pub fn scaled_bytes(chars: &[char], power: u32) -> (r: Option<u64>)
    requires
        power <= 5,
    ensures
        r == match numeral(chars@) {
            Some(n) => bytes_of(n, power as nat),
            None => None,
        },
{
    let reading = match read_numeral(chars) {
        Some(reading) => reading,
        None => {
            return None;
        },
    };
    let ghost n = numeral(chars@)->0;
    let digits = gather(chars, &reading);
    let first = first_nonzero(&digits);
    let ghost v = text::decimal_value(n.digits);
    let ghost units = v * kib_to(power as nat);
    if first == digits.len() {
        proof {
            zeros_are_nothing(digits@, digits@.len() as int);
            assert(digits@.take(digits@.len() as int) =~= digits@);
            assert(0 * kib_to(power as nat) == 0) by (nonlinear_arith);
            if n.exponent >= 0 {
                assert(0 * ten_to(n.exponent as nat) == 0) by (nonlinear_arith);
            } else {
                ten_to_grows(0, -n.exponent as nat);
            }
        }
        return Some(0);
    }
    let size = digits.len() - first;
    let exponent = reading.exponent;
    proof {
        first_digit_tells(digits@, first as int);
    }
    if size as i128 - 1 + exponent > 40 {
        proof {
            huge_numeral(v, size as nat, power as nat, n.exponent);
        }
        return None;
    }
    if size as i128 + exponent < -40 {
        proof {
            tiny_numeral(v, size as nat, power as nat, -n.exponent as nat);
        }
        return Some(0);
    }
    if exponent >= 0 {
        let mut value = value_of(&digits, first, digits.len());
        times_units(&mut value, power);
        times_ten(&mut value, exponent as u128);
        proof {
            assert(digits@.take(digits@.len() as int) =~= digits@);
        }
        round_to_bytes(value, BigNat::new(1))
    } else {
        fraction_bytes(&digits, first, (-exponent) as u128, power)
    }
}

// ------------------------------------------------------------------ whole sizes

/// A number of at most 53 bits, times a power of two, is a double: it is given
/// back as it is.
proof fn short_numbers_are_exact(n: nat, shift: nat)
    requires
        n < 0x20_0000_0000_0000,
        n * doubled(1, shift) <= u64::MAX,
    ensures
        nearest_bytes(n * doubled(1, shift), 1) == Some((n * doubled(1, shift)) as u64),
{
    let unit = doubled(1, shift);
    let p = n * unit;
    if p > 0 {
        let f = span(2 * p, 1);
        let e = shift + 54;
        assert(doubled(1, 53) == 0x20_0000_0000_0000) by {
            reveal_with_fuel(doubled, 54);
        }
        doubled_step(1, 53);
        powers_add(shift, 54);
        doubled_grows(1, 0, shift);
        assert(2 * (n * unit) < unit * 0x40_0000_0000_0000) by (nonlinear_arith)
            requires
                n < 0x20_0000_0000_0000,
                unit >= 1,
        ;
        span_is_least(2 * p, 1, e);
        let rest = (e - f) as nat;
        powers_add(rest, f);
        let top = doubled(2 * p, 53);
        let d = doubled(1, f);
        let scale = doubled(1, rest);
        doubled_is_product(2 * p, 53);
        doubled_grows(1, 0, f);
        let q = n * scale;
        assert(top == (2 * p) * 0x20_0000_0000_0000);
        assert(scale * d == unit * 0x40_0000_0000_0000);
        assert(top == q * d) by (nonlinear_arith)
            requires
                top == (2 * p) * 0x20_0000_0000_0000,
                p == n * unit,
                q == n * scale,
                scale * d == unit * 0x40_0000_0000_0000,
        ;
        quotient_is(top, d, q, 0);
        let significand = half_even(top, d);
        assert(significand == q);
        doubled_is_product(q, f);
        let fixed = doubled(significand, f);
        assert(fixed == top);
        assert(fixed == p * 0x40_0000_0000_0000);
        quotient_is(
            (fixed + 0x20_0000_0000_0000) as nat,
            0x40_0000_0000_0000,
            p,
            0x20_0000_0000_0000,
        );
    }
}

proof fn digits_run(digits: Seq<char>)
    requires
        text::all_digits(digits),
    ensures
        text::run(digits, CharClass::Digit) == digits.len(),
    decreases digits.len(),
{
    if digits.len() > 0 {
        let rest = digits.drop_first();
        assert forall|i: int| 0 <= i < rest.len() implies text::is_digit(#[trigger] rest[i]) by {
            assert(rest[i] == digits[i + 1]);
        }
        assert(text::is_digit(digits[0]));
        digits_run(rest);
    }
}

/// A whole number below two to the power of 53, in units of 1024 to the power of
/// `power`, counts exactly that many bytes.
pub proof fn whole_units_are_exact(n: nat, power: nat)
    requires
        n < 0x20_0000_0000_0000,
        n * kib_to(power) <= u64::MAX,
    ensures
        numeral(text::decimal_text(n)) == Some(
            Numeral { digits: text::decimal_text(n), exponent: 0 },
        ),
        bytes_of(Numeral { digits: text::decimal_text(n), exponent: 0 }, power) == Some(
            (n * kib_to(power)) as u64,
        ),
{
    let digits = text::decimal_text(n);
    text::decimal_text_round_trips(n);
    digits_run(digits);
    assert(digits.skip(digits.len() as int) =~= Seq::empty());
    assert(digits.take(digits.len() as int) + digits.subrange(
        digits.len() as int,
        digits.len() as int,
    ) =~= digits);
    units_are_powers(power);
    short_numbers_are_exact(n, 10 * power);
    assert((n * kib_to(power)) * 1 == n * kib_to(power)) by (nonlinear_arith);
}

proof fn digits_run_on(digits: Seq<char>, tail: Seq<char>)
    requires
        text::all_digits(digits),
        tail.len() == 0 || !text::is_digit(tail[0]),
    ensures
        text::run(digits + tail, CharClass::Digit) == digits.len(),
    decreases digits.len(),
{
    if digits.len() > 0 {
        let rest = digits.drop_first();
        assert forall|i: int| 0 <= i < rest.len() implies text::is_digit(#[trigger] rest[i]) by {
            assert(rest[i] == digits[i + 1]);
        }
        assert(text::is_digit(digits[0]));
        digits_run_on(rest, tail);
        assert((digits + tail).drop_first() =~= rest + tail);
        assert((digits + tail)[0] == digits[0]);
    } else {
        assert(digits + tail =~= tail);
    }
}

/// Digits, a full stop and digits are one numeral: its digits are all of them, and
/// each one behind the full stop takes off a power of ten. There must be a digit on
/// one side.
pub proof fn numerals_have_fractions(whole: Seq<char>, fraction: Seq<char>)
    requires
        text::all_digits(whole),
        text::all_digits(fraction),
        whole.len() + fraction.len() > 0,
    ensures
        numeral(whole + "."@ + fraction) == Some(
            Numeral { digits: whole + fraction, exponent: -(fraction.len() as int) },
        ),
{
    reveal_strlit(".");
    let value = whole + "."@ + fraction;
    assert(value =~= whole + ("."@ + fraction));
    digits_run_on(whole, "."@ + fraction);
    let from = whole.len() as int + 1;
    assert(value[whole.len() as int] == '.');
    assert(value.skip(from) =~= fraction);
    digits_run(fraction);
    let none = value.skip(from + fraction.len());
    assert(none =~= Seq::empty());
    assert(value.take(whole.len() as int) =~= whole);
    assert(value.subrange(from, from + fraction.len()) =~= fraction);
}

/// Digits behind a letter `e` are an exponent, with its sign.
pub proof fn numerals_have_exponents(digits: Seq<char>, letter: char, exponent: Seq<char>)
    requires
        text::all_digits(digits),
        text::all_digits(exponent),
        digits.len() > 0,
        exponent.len() > 0,
        letter == 'e' || letter == 'E',
    ensures
        numeral(digits + seq![letter] + exponent) == Some(
            Numeral { digits, exponent: text::decimal_value(exponent) as int },
        ),
        numeral(digits + seq![letter, '+'] + exponent) == Some(
            Numeral { digits, exponent: text::decimal_value(exponent) as int },
        ),
        numeral(digits + seq![letter, '-'] + exponent) == Some(
            Numeral { digits, exponent: -(text::decimal_value(exponent) as int) },
        ),
{
    assert(text::is_digit(exponent[0]));
    digits_before_an_exponent(digits, seq![letter] + exponent);
    digits_before_an_exponent(digits, seq![letter, '+'] + exponent);
    digits_before_an_exponent(digits, seq![letter, '-'] + exponent);
    assert(digits + (seq![letter] + exponent) =~= digits + seq![letter] + exponent);
    assert(digits + (seq![letter, '+'] + exponent) =~= digits + seq![letter, '+'] + exponent);
    assert(digits + (seq![letter, '-'] + exponent) =~= digits + seq![letter, '-'] + exponent);
    assert((seq![letter] + exponent)[1] == exponent[0]);
    assert((seq![letter] + exponent).skip(1) =~= exponent);
    assert((seq![letter, '+'] + exponent).skip(2) =~= exponent);
    assert((seq![letter, '-'] + exponent).skip(2) =~= exponent);
}

proof fn digits_before_an_exponent(digits: Seq<char>, tail: Seq<char>)
    requires
        text::all_digits(digits),
        digits.len() > 0,
        tail.len() > 0,
        tail[0] == 'e' || tail[0] == 'E',
    ensures
        numeral(digits + tail) == (match exponent_in(tail) {
            Some(exponent) => Some(Numeral { digits, exponent }),
            None => None,
        }),
{
    let value = digits + tail;
    digits_run_on(digits, tail);
    assert(value[digits.len() as int] == tail[0]);
    assert(value.skip(digits.len() as int) =~= tail);
    assert(value.take(digits.len() as int) + value.subrange(
        digits.len() as int,
        digits.len() as int,
    ) =~= digits);
}

// ------------------------------------------------------------ writing a size

/// The double-precision number nearest to `n`: 53 significant bits, ties to
/// even.
pub open spec fn nearest_double(n: nat) -> nat {
    let f = span(n, 0x20_0000_0000_0000);
    doubled(half_even(n, doubled(1, f)), f)
}

/// The largest power of 1024, up to `last`, that `n` reaches.
pub open spec fn unit_index(n: nat, last: nat) -> nat
    decreases last,
{
    if last == 0 || n >= kib_to(last) {
        last
    } else {
        unit_index(n, (last - 1) as nat)
    }
}

/// The last `places` decimal digits of `n`.
pub open spec fn last_digits(n: nat, places: nat) -> Seq<char>
    decreases places,
{
    if places == 0 {
        Seq::empty()
    } else {
        last_digits(n / 10, (places - 1) as nat).push(text::digit_char(n % 10))
    }
}

/// `n` bytes in the largest of `units` that they reach: the plain count in the
/// first unit, and in any other the double nearest to `n` over the unit's size,
/// rounded to `places` decimals, ties to even.
pub open spec fn size_text(n: nat, units: Seq<Seq<char>>, places: nat) -> Seq<char> {
    let double = nearest_double(n);
    let k = unit_index(double, (units.len() - 1) as nat);
    if k == 0 {
        text::decimal_text(n) + " "@ + units[0]
    } else {
        let scaled = half_even(ten_to(places) * double, kib_to(k));
        text::decimal_text(scaled / ten_to(places)) + "."@ + last_digits(scaled, places) + " "@
            + units[k as int]
    }
}

/// String slices by their characters.
pub open spec fn str_views(texts: Seq<&str>) -> Seq<Seq<char>> {
    Seq::new(texts.len(), |i: int| texts[i]@)
}

fn round_half_even(n: u128, d: u128) -> (r: u128)
    requires
        0 < d < 0x1_0000_0000_0000_0000_0000,
        n < 0x1_0000_0000_0000_0000_0000_0000,
    ensures
        r == half_even(n as nat, d as nat),
        r <= n / d + 1,
{
    let q = n / d;
    let rest = n % d;
    proof {
        assert(q <= n) by (nonlinear_arith)
            requires
                q == n / d,
                d > 0,
        ;
    }
    if 2 * rest > d || (2 * rest == d && q % 2 == 1) {
        q + 1
    } else {
        q
    }
}

fn to_nearest_double(n: u64) -> (r: u128)
    ensures
        r == nearest_double(n as nat),
        r <= 0x1_0000_0000_0000_0000,
{
    let mut f: u32 = 0;
    let mut bound: u128 = 0x20_0000_0000_0000;
    let mut step: u128 = 1;
    while (n as u128) >= bound
        invariant
            f <= 11,
            bound == 0x20_0000_0000_0000 * step,
            step == doubled(1, f as nat),
            1 <= step <= 2048,
            f == 11 ==> step == 2048,
            f < 11 ==> step <= 1024,
            span(n as nat, 0x20_0000_0000_0000) == f + span(n as nat, bound as nat),
        decreases 11 - f,
    {
        proof {
            doubled_step(1, f as nat);
            assert(f + 1 == 11 ==> doubled(1, f as nat + 1) == 2048) by {
                reveal_with_fuel(doubled, 12);
            }
            if f + 1 < 11 {
                doubled_grows(1, f as nat + 1, 10);
                assert(doubled(1, 10) == 1024) by {
                    reveal_with_fuel(doubled, 11);
                }
            }
        }
        f = f + 1;
        bound = bound * 2;
        step = step * 2;
    }
    let m = round_half_even(n as u128, step);
    proof {
        doubled_is_product(m as nat, f as nat);
        assert(n / step as u64 <= 0x20_0000_0000_0000 - 1) by (nonlinear_arith)
            requires
                n < 0x20_0000_0000_0000 * step,
                1 <= step <= 2048,
        ;
        assert(m * step <= 0x20_0000_0000_0000 * step && 0x20_0000_0000_0000 * step
            <= 0x1_0000_0000_0000_0000) by (nonlinear_arith)
            requires
                m <= 0x20_0000_0000_0000,
                1 <= step <= 2048,
        ;
    }
    m * step
}

fn kib_power(k: u32) -> (r: u128)
    requires
        k <= 5,
    ensures
        r == kib_to(k as nat),
        1 <= r <= 0x4_0000_0000_0000,
{
    proof {
        reveal_with_fuel(kib_to, 6);
    }
    match k {
        0 => 1,
        1 => 1024,
        2 => 1_048_576,
        3 => 1_073_741_824,
        4 => 1_099_511_627_776,
        _ => 1_125_899_906_842_624,
    }
}

/// Writes a byte count in the largest of `units` that it reaches.
pub fn size_string(bytes: u64, units: &[&str], places: u32) -> (r: String)
    requires
        1 <= units@.len() <= 6,
        1 <= places <= 2,
    ensures
        r@ == size_text(bytes as nat, str_views(units@), places as nat),
{
    let double = to_nearest_double(bytes);
    let last: u32 = (units.len() - 1) as u32;
    let mut k: u32 = last;
    while k > 0 && double < kib_power(k)
        invariant
            k <= last <= 5,
            unit_index(double as nat, k as nat) == unit_index(double as nat, last as nat),
        decreases k,
    {
        k = k - 1;
    }
    if k == 0 {
        let mut out = decimal_string(bytes);
        out.append(" ");
        out.append(units[0]);
        return out;
    }
    let hundred: u128 = if places == 1 {
        10
    } else {
        100
    };
    proof {
        reveal_with_fuel(ten_to, 3);
        reveal_with_fuel(last_digits, 3);
        assert(hundred * double == ten_to(places as nat) * double) by (nonlinear_arith)
            requires
                hundred == ten_to(places as nat),
        ;
        assert(hundred * double <= 100 * 0x1_0000_0000_0000_0000) by (nonlinear_arith)
            requires
                hundred <= 100,
                double <= 0x1_0000_0000_0000_0000,
        ;
        assert(hundred * double >= 0) by (nonlinear_arith);
    }
    let unit = kib_power(k);
    let scaled = round_half_even(hundred * double, unit);
    proof {
        let product = hundred * double;
        assert(product as int / unit as int <= 100 * 0x1000_0000_0000_0000) by (nonlinear_arith)
            requires
                product <= 100 * 0x1_0000_0000_0000_0000,
                product >= 0,
                unit >= 1024,
        ;
        assert(unit >= 1024) by {
            reveal_with_fuel(kib_to, 6);
        }
    }
    let mut out = decimal_string((scaled / hundred) as u64);
    out.append(".");
    if places == 2 {
        let tens = ((scaled / 10) % 10) as u8;
        out.push((tens + 48) as char);
    }
    let ones = (scaled % 10) as u8;
    out.push((ones + 48) as char);
    out.append(" ");
    out.append(units[k as usize]);
    proof {
        let whole = text::decimal_text((scaled / hundred) as nat);
        let tail = last_digits(scaled as nat, places as nat);
        if places == 2 {
            assert(tail =~= seq![
                text::digit_char((scaled as nat / 10) % 10),
                text::digit_char(scaled as nat % 10),
            ]);
        } else {
            assert(tail =~= seq![text::digit_char(scaled as nat % 10)]);
        }
        assert(out@ =~= whole + "."@ + tail + " "@ + units@[k as int]@);
    }
    out
}

} // verus!
