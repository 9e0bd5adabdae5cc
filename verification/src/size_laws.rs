//! Laws of sizes: what a number with a unit counts, and how a count is shown.

use crate::search;
use crate::selection;
use crate::size;
use crate::size::Numeral;
use crate::text;
use crate::text::CharClass;
use vstd::prelude::*;

verus! {

// --------------------------------------------------------------------- reading

/// What the names of units count, in whatever case they are written: each is 1024
/// of the one before, and decimal names mean the same as binary ones.
pub open spec fn unit_bytes(unit: Seq<char>) -> nat {
    let name = text::lower(unit);
    if name == "kb"@ || name == "kib"@ {
        1024
    } else if name == "mb"@ || name == "mib"@ {
        1_048_576
    } else if name == "gb"@ || name == "gib"@ {
        1_073_741_824
    } else if name == "tb"@ || name == "tib"@ {
        1_099_511_627_776
    } else if name == "pb"@ || name == "pib"@ {
        1_125_899_906_842_624
    } else {
        1
    }
}

/// The names of units.
pub open spec fn is_unit(unit: Seq<char>) -> bool {
    let name = text::lower(unit);
    ||| name == "b"@ || name == "byte"@ || name == "bytes"@
    ||| name == "kb"@ || name == "kib"@
    ||| name == "mb"@ || name == "mib"@
    ||| name == "gb"@ || name == "gib"@
    ||| name == "tb"@ || name == "tib"@
    ||| name == "pb"@ || name == "pib"@
}

proof fn units_count(unit: Seq<char>)
    requires
        is_unit(unit),
    ensures
        search::unit_power(text::lower(unit)) matches Some(power) && size::kib_to(power)
            == unit_bytes(unit),
{
    let name = text::lower(unit);
    search::unit_names_agree();
    reveal_with_fuel(size::kib_to, 6);
    reveal_strlit("b");
    reveal_strlit("byte");
    reveal_strlit("bytes");
    reveal_strlit("kb");
    reveal_strlit("kib");
    reveal_strlit("mb");
    reveal_strlit("mib");
    reveal_strlit("gb");
    reveal_strlit("gib");
    reveal_strlit("tb");
    reveal_strlit("tib");
    reveal_strlit("pb");
    reveal_strlit("pib");
}

/// A whole number with a unit counts that many units.
pub proof fn whole_sizes_are_products(n: u64, unit: Seq<char>, plain: bool)
    requires
        n < 0x20_0000_0000_0000,
        is_unit(unit),
        n * unit_bytes(unit) <= u64::MAX,
    ensures
        search::size_in(text::decimal_text(n as nat) + " "@ + unit, plain) == Some(
            (n * unit_bytes(unit)) as u64,
        ),
{
    units_count(unit);
    search::sizes_read_back(n, unit, plain);
}

proof fn rounding_scales(n: nat, d: nat, c: nat)
    requires
        d > 0,
        c > 0,
    ensures
        size::half_even(c * n, c * d) == size::half_even(n, d),
{
    let q = n / d;
    let r = n % d;
    assert(n == q * d + r && r < d) by {
        vstd::arithmetic::div_mod::lemma_fundamental_div_mod(n as int, d as int);
        assert(d * q == q * d) by (nonlinear_arith);
    }
    assert(c * n == q * (c * d) + c * r) by (nonlinear_arith)
        requires
            n == q * d + r,
    ;
    assert(c * r < c * d) by (nonlinear_arith)
        requires
            r < d,
            c > 0,
    ;
    size::quotient_is(c * n, c * d, q, c * r);
    assert((2 * (c * r) > c * d) == (2 * r > d)) by (nonlinear_arith)
        requires
            c > 0,
    ;
    assert((2 * (c * r) == c * d) == (2 * r == d)) by (nonlinear_arith)
        requires
            c > 0,
    ;
}

proof fn spans_scale(n: nat, d: nat, c: nat)
    requires
        d > 0,
        c > 0,
    ensures
        size::span(c * n, c * d) == size::span(n, d),
    decreases
        (if n < d {
            0
        } else {
            n - d + 1
        }),
{
    assert((c * n < c * d) == (n < d)) by (nonlinear_arith)
        requires
            c > 0,
    ;
    assert(c * d > 0) by (nonlinear_arith)
        requires
            c > 0,
            d > 0,
    ;
    if n >= d {
        assert(2 * (c * d) == c * (2 * d)) by (nonlinear_arith);
        spans_scale(n, 2 * d, c);
    }
}

/// The byte count of a quotient is the same however the quotient is written.
pub proof fn quotients_may_be_widened(p: nat, q: nat, c: nat)
    requires
        q > 0,
        c > 0,
    ensures
        size::nearest_bytes(c * p, c * q) == size::nearest_bytes(p, q),
{
    assert((4 * (c * p) < c * q) == (4 * p < q)) by (nonlinear_arith)
        requires
            c > 0,
    ;
    if 4 * p >= q {
        assert(2 * (c * p) == c * (2 * p)) by (nonlinear_arith);
        spans_scale(2 * p, q, c);
        let f = size::span(2 * p, q);
        size::doubled_is_product(c * (2 * p), 53);
        size::doubled_is_product(2 * p, 53);
        size::doubled_is_product(c * q, f);
        size::doubled_is_product(q, f);
        size::doubled_grows(q, f, f);
        let a = size::doubled(1, 53);
        let b = size::doubled(1, f);
        assert((c * (2 * p)) * a == c * ((2 * p) * a)) by (nonlinear_arith);
        assert((c * q) * b == c * (q * b)) by (nonlinear_arith);
        rounding_scales(size::doubled(2 * p, 53), size::doubled(q, f), c);
    }
}

/// A whole number of halves of a byte, below two to the power of 52 bytes, counts
/// the nearest byte, and a half counts up.
pub proof fn halves_count_up(m: nat)
    requires
        m < 0x20_0000_0000_0000,
    ensures
        size::nearest_bytes(m, 2) == Some(((m + 1) / 2) as u64),
{
    if m > 0 {
        let f = size::span(2 * m, 2);
        assert(size::doubled(1, 53) == 0x20_0000_0000_0000) by {
            reveal_with_fuel(size::doubled, 54);
        }
        size::doubled_is_product(2, 53);
        size::span_is_least(2 * m, 2, 53);
        let rest = (53 - f) as nat;
        size::powers_add(rest, f);
        let scale = size::doubled(1, rest);
        let power = size::doubled(1, f);
        size::doubled_is_product(2, f);
        size::doubled_is_product(2 * m, 53);
        let top = size::doubled(2 * m, 53);
        let d = size::doubled(2, f);
        size::doubled_grows(1, f, f);
        assert(top == (m * scale) * d) by (nonlinear_arith)
            requires
                top == (2 * m) * 0x20_0000_0000_0000,
                d == 2 * power,
                scale * power == 0x20_0000_0000_0000,
        ;
        size::quotient_is(top, d, m * scale, 0);
        size::doubled_is_product(m * scale, f);
        let fixed = size::doubled(m * scale, f);
        assert(fixed == m * 0x20_0000_0000_0000) by (nonlinear_arith)
            requires
                fixed == (m * scale) * power,
                scale * power == 0x20_0000_0000_0000,
        ;
        assert((m * 0x20_0000_0000_0000 + 0x20_0000_0000_0000) / 0x40_0000_0000_0000 == (m + 1)
            / 2);
    }
}

/// A number with a fraction counts its units to the nearest byte, and a half counts
/// up, wherever the product comes to halves of a byte: the digits of both sides of
/// the full stop times the unit, over the power of ten.
pub proof fn decimal_sizes_are_products(
    whole: Seq<char>,
    fraction: Seq<char>,
    unit: Seq<char>,
    plain: bool,
    halves: nat,
)
    requires
        whole.len() > 0,
        fraction.len() > 0,
        text::all_digits(whole),
        text::all_digits(fraction),
        is_unit(unit),
        halves < 0x20_0000_0000_0000,
        2 * (text::decimal_value(whole + fraction) * unit_bytes(unit)) == halves * size::ten_to(
            fraction.len(),
        ),
    ensures
        search::size_in(whole + "."@ + fraction + " "@ + unit, plain) == Some(
            ((halves + 1) / 2) as u64,
        ),
{
    units_count(unit);
    search::fractions_are_read(whole, fraction, unit, plain);
    let ten = size::ten_to(fraction.len());
    let units = text::decimal_value(whole + fraction) * unit_bytes(unit);
    tens_are_positive(fraction.len());
    quotients_may_be_widened(units, ten, 2);
    quotients_may_be_widened(halves, 2, ten);
    assert(ten * halves == halves * ten) by (nonlinear_arith);
    assert(ten * 2 == 2 * ten);
    halves_count_up(halves);
}

proof fn tens_are_positive(k: nat)
    ensures
        size::ten_to(k) > 0,
    decreases k,
{
    if k > 0 {
        tens_are_positive((k - 1) as nat);
    }
}

/// An exponent multiplies by its power of ten.
pub proof fn exponents_multiply(digits: Seq<char>, exponent: nat, power: nat)
    requires
        2 * (text::decimal_value(digits) * size::kib_to(power) * size::ten_to(exponent))
            < 0x20_0000_0000_0000,
    ensures
        size::bytes_of(Numeral { digits, exponent: exponent as int }, power) == Some(
            (text::decimal_value(digits) * size::kib_to(power) * size::ten_to(exponent)) as u64,
        ),
{
    let count = text::decimal_value(digits) * size::kib_to(power) * size::ten_to(exponent);
    quotients_may_be_widened(count, 1, 2);
    halves_count_up(2 * count);
}

/// A count of two to the power of 65 bytes or more is no size.
pub proof fn counts_have_a_limit(p: nat, q: nat)
    requires
        q > 0,
        p >= 0x2_0000_0000_0000_0000 * q,
    ensures
        size::nearest_bytes(p, q) is None,
{
    let n = 2 * p;
    let f = size::span(n, q);
    size::span_bounds(n, q);
    high_powers();
    size::doubled_is_product(q, 66);
    assert(q * 0x4_0000_0000_0000_0000 == 2 * (0x2_0000_0000_0000_0000 * q)) by (nonlinear_arith);
    if f < 67 {
        size::doubled_grows(q, f, 66);
        assert(false);
    }
    let before = (f - 1) as nat;
    size::doubled_step(q, before);
    size::doubled_is_product(n, 53);
    let top = size::doubled(n, 53);
    let d = size::doubled(q, f);
    let half = size::doubled(q, before);
    size::doubled_grows(q, 0, f);
    assert(top >= d * 0x10_0000_0000_0000) by (nonlinear_arith)
        requires
            top == n * 0x20_0000_0000_0000,
            d == 2 * half,
            n >= half,
    ;
    assert(top / d >= 0x10_0000_0000_0000) by (nonlinear_arith)
        requires
            top >= d * 0x10_0000_0000_0000,
            d > 0,
    ;
    let m = size::half_even(top, d);
    size::doubled_grows(m, 67, f);
    size::doubled_is_product(m, 67);
    let high = size::doubled(1, 67);
    assert(m * high >= 0x10_0000_0000_0000 * high) by (nonlinear_arith)
        requires
            m >= 0x10_0000_0000_0000,
    ;
}

proof fn high_powers()
    ensures
        size::doubled(1, 53) == 0x20_0000_0000_0000,
        size::doubled(1, 66) == 0x4_0000_0000_0000_0000,
        size::doubled(1, 67) == 0x8_0000_0000_0000_0000,
{
    assert(size::doubled(1, 53) == 0x20_0000_0000_0000) by {
        reveal_with_fuel(size::doubled, 54);
    }
    assert(size::doubled(1, 13) == 0x2000) by {
        reveal_with_fuel(size::doubled, 14);
    }
    size::powers_add(53, 13);
    size::doubled_step(1, 66);
}

/// The first two words that are a number and a unit are the size, whatever stands
/// before them.
pub proof fn the_first_size_is_taken(words: Seq<Seq<char>>, at: int, bytes: u64)
    requires
        0 <= at < words.len() - 1,
        search::pair_size(words[at], words[at + 1]) == Some(bytes),
        forall|i: int|
            0 <= i < at ==> search::pair_size(#[trigger] words[i], words[i + 1]) is None,
    ensures
        search::first_pair_size(words) == Some(bytes),
    decreases at,
{
    if at > 0 {
        assert(search::pair_size(words[0], words[1]) is None);
        let rest = words.drop_first();
        assert(rest[at - 1] == words[at] && rest[at] == words[at + 1]);
        assert forall|i: int| 0 <= i < at - 1 implies search::pair_size(
            #[trigger] rest[i],
            rest[i + 1],
        ) is None by {
            assert(rest[i] == words[i + 1]);
            assert(rest[i + 1] == words[i + 1 + 1]);
        }
        the_first_size_is_taken(rest, at - 1, bytes);
    }
}

/// The same in a text: its words without their commas decide, one neighbouring pair
/// after the other.
pub proof fn texts_give_their_first_size(value: Seq<char>, plain: bool, at: int, bytes: u64)
    requires
        0 <= at < text::words(search::without_commas(value)).len() - 1,
        search::pair_size(
            text::words(search::without_commas(value))[at],
            text::words(search::without_commas(value))[at + 1],
        ) == Some(bytes),
        forall|i: int|
            0 <= i < at ==> search::pair_size(
                #[trigger] text::words(search::without_commas(value))[i],
                text::words(search::without_commas(value))[i + 1],
            ) is None,
    ensures
        search::size_in(value, plain) == Some(bytes),
{
    the_first_size_is_taken(text::words(search::without_commas(value)), at, bytes);
}

proof fn runs_end_with_the_text(value: Seq<char>, c: char, class: CharClass)
    requires
        class.has(c),
    ensures
        text::run(value, class) <= value.len(),
        text::run(value, class) == value.len() ==> text::run(value.push(c), class) == value.len()
            + 1,
        text::run(value, class) < value.len() ==> text::run(value.push(c), class) == text::run(
            value,
            class,
        ),
    decreases value.len(),
{
    let more = value.push(c);
    if value.len() == 0 {
        assert(more.drop_first() =~= Seq::empty());
        assert(text::run(more.drop_first(), class) == 0);
    } else {
        runs_end_with_the_text(value.drop_first(), c, class);
        assert(more.drop_first() =~= value.drop_first().push(c));
        assert(more[0] == value[0]);
    }
}

proof fn marks_around_vanish(value: Seq<char>, c: char, class: CharClass)
    requires
        class.has(c),
    ensures
        text::trimmed(seq![c] + value, class) == text::trimmed(value, class),
        text::trimmed(value.push(c), class) == text::trimmed(value, class),
{
    let front = seq![c] + value;
    assert(front.drop_first() =~= value);
    runs_end_with_the_text(value, c, class);
    assert(text::strip_start(front, class) =~= text::strip_start(value, class));
    let more = value.push(c);
    if text::run(value, class) == value.len() {
        assert(text::strip_start(more, class) =~= Seq::empty());
        assert(text::strip_start(value, class) =~= Seq::empty());
    } else {
        let rest = text::strip_start(value, class);
        assert(text::strip_start(more, class) =~= rest.push(c));
        assert(rest.push(c).drop_last() =~= rest);
    }
}

/// What stands around a number that is no digit and no full stop, and around a unit
/// that is no ASCII letter, does not count.
pub proof fn marks_around_sizes_are_ignored(number: Seq<char>, unit: Seq<char>, mark: char)
    ensures
        !(0x30 <= mark as int <= 0x39) && mark as int != 0x2e ==> {
            &&& search::pair_size(seq![mark] + number, unit) == search::pair_size(number, unit)
            &&& search::pair_size(number.push(mark), unit) == search::pair_size(number, unit)
        },
        !(0x41 <= mark as int <= 0x5a) && !(0x61 <= mark as int <= 0x7a) ==> {
            &&& search::pair_size(number, seq![mark] + unit) == search::pair_size(number, unit)
            &&& search::pair_size(number, unit.push(mark)) == search::pair_size(number, unit)
        },
{
    if CharClass::NotNumeral.has(mark) {
        marks_around_vanish(number, mark, CharClass::NotNumeral);
    }
    if CharClass::NotLetter.has(mark) {
        marks_around_vanish(unit, mark, CharClass::NotLetter);
    }
}

// --------------------------------------------------------------------- showing

/// Where a count stands among the units: how many powers of 1024 it reaches, up to
/// `last`.
pub open spec fn reaches(n: nat, k: nat, last: nat) -> bool {
    &&& k <= last
    &&& k == 0 || n >= size::kib_to(k)
    &&& k == last || n < size::kib_to(k + 1)
}

proof fn powers_grow(k: nat, l: nat)
    requires
        k <= l,
    ensures
        1 <= size::kib_to(k) <= size::kib_to(l),
    decreases l,
{
    if k < l {
        powers_grow(k, (l - 1) as nat);
    } else if k > 0 {
        powers_grow((k - 1) as nat, (k - 1) as nat);
    }
}

proof fn reached_units_are_taken(n: nat, k: nat, last: nat)
    requires
        reaches(n, k, last),
    ensures
        size::unit_index(n, last) == k,
    decreases last,
{
    if last > k {
        powers_grow(k + 1, last);
        if k < last - 1 {
            assert(reaches(n, k, (last - 1) as nat));
        }
        reached_units_are_taken(n, k, (last - 1) as nat);
    }
}

proof fn short_counts_are_doubles(n: nat)
    requires
        n < 0x20_0000_0000_0000,
    ensures
        size::nearest_double(n) == n,
{
    assert(size::span(n, 0x20_0000_0000_0000) == 0);
    assert(size::doubled(1, 0) == 1);
    size::quotient_is(n, 1, n, 0);
    assert(size::half_even(n, 1) == n);
    assert(size::doubled(n, 0) == n);
}

proof fn rounded_is_nearest(n: nat, d: nat)
    requires
        d > 0,
    ensures
        2 * (size::half_even(n, d) * d) <= 2 * n + d,
        2 * n <= 2 * (size::half_even(n, d) * d) + d,
{
    let q = n / d;
    let r = n % d;
    vstd::arithmetic::div_mod::lemma_fundamental_div_mod(n as int, d as int);
    assert(d * q == q * d) by (nonlinear_arith);
    assert((q + 1) * d == q * d + d) by (nonlinear_arith);
}

/// A text for a number of hundredths: the whole part, a full stop, and two digits.
pub open spec fn hundredths(h: nat) -> Seq<char> {
    text::decimal_text(h / 100) + "."@ + seq![
        (48 + (h / 10) % 10) as char,
        (48 + h % 10) as char,
    ]
}

/// A text for a number of tenths: the whole part, a full stop, and one digit.
pub open spec fn tenths(h: nat) -> Seq<char> {
    text::decimal_text(h / 10) + "."@ + seq![(48 + h % 10) as char]
}

/// How sizes of results are shown: an unknown one as unknown, one below a kibibyte
/// as a plain count of bytes, and any other in the largest unit that it reaches, to
/// the nearest hundredth.
pub proof fn sizes_are_shown_in_the_largest_unit(n: u64, k: nat)
    requires
        n < 0x20_0000_0000_0000,
        reaches(n as nat, k, 5),
    ensures
        selection::human_size_text(None) == "unknown"@,
        k == 0 ==> selection::human_size_text(Some(n)) == text::decimal_text(n as nat) + " B"@,
        k > 0 ==> exists|h: nat|
            selection::human_size_text(Some(n)) == #[trigger] hundredths(h) + (if k == 1 {
                " KiB"@
            } else if k == 2 {
                " MiB"@
            } else if k == 3 {
                " GiB"@
            } else if k == 4 {
                " TiB"@
            } else {
                " PiB"@
            }) && 2 * (h * size::kib_to(k)) <= 200 * n + size::kib_to(k) && 200 * n <= 2 * (h
                * size::kib_to(k)) + size::kib_to(k),
{
    reveal_strlit(" ");
    reveal_strlit("B");
    reveal_strlit(" B");
    reveal_strlit("KiB");
    reveal_strlit(" KiB");
    reveal_strlit("MiB");
    reveal_strlit(" MiB");
    reveal_strlit("GiB");
    reveal_strlit(" GiB");
    reveal_strlit("TiB");
    reveal_strlit(" TiB");
    reveal_strlit("PiB");
    reveal_strlit(" PiB");
    short_counts_are_doubles(n as nat);
    reached_units_are_taken(n as nat, k, 5);
    let units = selection::binary_units();
    assert(units.len() == 6);
    powers_grow(k, k);
    if k == 0 {
        assert(text::decimal_text(n as nat) + " "@ + "B"@ =~= text::decimal_text(n as nat)
            + " B"@);
    } else {
        assert(size::ten_to(2) == 100) by {
            reveal_with_fuel(size::ten_to, 3);
        }
        let h = size::half_even(100 * n as nat, size::kib_to(k));
        rounded_is_nearest(100 * n as nat, size::kib_to(k));
        reveal_with_fuel(size::last_digits, 3);
        assert(size::last_digits(h, 2) =~= seq![
            (48 + (h / 10) % 10) as char,
            (48 + h % 10) as char,
        ]);
        let shown = hundredths(h);
        assert(shown + " "@ + units[k as int] =~= shown + (if k == 1 {
            " KiB"@
        } else if k == 2 {
            " MiB"@
        } else if k == 3 {
            " GiB"@
        } else if k == 4 {
            " TiB"@
        } else {
            " PiB"@
        }));
    }
}

/// How sizes of files are shown: in units of 1024 with short names, to the nearest
/// tenth.
pub proof fn file_sizes_are_shown_in_the_largest_unit(n: u64, k: nat)
    requires
        n < 0x20_0000_0000_0000,
        reaches(n as nat, k, 4),
    ensures
        k == 0 ==> size::size_text(n as nat, crate::download::plain_units(), 1)
            == text::decimal_text(n as nat) + " B"@,
        k > 0 ==> exists|h: nat|
            size::size_text(n as nat, crate::download::plain_units(), 1) == #[trigger] tenths(h)
                + (if k == 1 {
                " KB"@
            } else if k == 2 {
                " MB"@
            } else if k == 3 {
                " GB"@
            } else {
                " TB"@
            }) && 2 * (h * size::kib_to(k)) <= 20 * n + size::kib_to(k) && 20 * n <= 2 * (h
                * size::kib_to(k)) + size::kib_to(k),
{
    reveal_strlit(" ");
    reveal_strlit("B");
    reveal_strlit(" B");
    reveal_strlit("KB");
    reveal_strlit(" KB");
    reveal_strlit("MB");
    reveal_strlit(" MB");
    reveal_strlit("GB");
    reveal_strlit(" GB");
    reveal_strlit("TB");
    reveal_strlit(" TB");
    short_counts_are_doubles(n as nat);
    reached_units_are_taken(n as nat, k, 4);
    let units = crate::download::plain_units();
    assert(units.len() == 5);
    powers_grow(k, k);
    if k == 0 {
        assert(text::decimal_text(n as nat) + " "@ + "B"@ =~= text::decimal_text(n as nat)
            + " B"@);
    } else {
        assert(size::ten_to(1) == 10) by {
            reveal_with_fuel(size::ten_to, 2);
        }
        let h = size::half_even(10 * n as nat, size::kib_to(k));
        rounded_is_nearest(10 * n as nat, size::kib_to(k));
        reveal_with_fuel(size::last_digits, 2);
        assert(size::last_digits(h, 1) =~= seq![(48 + h % 10) as char]);
        let shown = tenths(h);
        assert(shown + " "@ + units[k as int] =~= shown + (if k == 1 {
            " KB"@
        } else if k == 2 {
            " MB"@
        } else if k == 3 {
            " GB"@
        } else {
            " TB"@
        }));
    }
}

/// The units by which sizes are shown are powers of 1024.
pub proof fn units_are_powers_of_1024()
    ensures
        size::kib_to(0) == 1,
        size::kib_to(1) == 1024,
        size::kib_to(2) == 1_048_576,
        size::kib_to(3) == 1_073_741_824,
        size::kib_to(4) == 1_099_511_627_776,
        size::kib_to(5) == 1_125_899_906_842_624,
{
    reveal_with_fuel(size::kib_to, 6);
}

} // verus!
