//! Search results: reading them off rendered pages, ranking them, and telling
//! what state a results page is in.

use crate::browser;
use crate::browser::RenderedDocument;
use crate::discovery;
use crate::discovery::{contains_any, lowered_front};
use crate::dom;
use crate::dom::{select_first, select_within, Branch, Element};
use crate::model;
use crate::model::{sanitize_display_text, MagnetUri, TorrentResult};
use crate::order;
use crate::order::{compare_chars, compare_counts, Order};
use crate::ranking;
use crate::size;
use crate::size::scaled_bytes;
use crate::text;
use crate::text::{
    chars_of, contains, is_text, lower_chars, lower_text, read_number, same_text, split_words, text_of,
    trim, CharClass,
};
use crate::weburl;
use crate::weburl::Url;
use vstd::prelude::*;

pub use crate::search_run::{
    PageRead, SearchAction, SearchEngine, SearchError, SearchEvent, SearchFailure,
    SearchFailureReason, SearchFailureStage, SearchOutcome, SearchRun,
};

verus! {

/// The most result rows that are looked at.
pub const HARD_MAX_RESULT_ROWS: usize = 500;

/// The most links of a row in which a magnet is looked for.
pub const HARD_MAX_ROW_LINKS: usize = 80;

/// The most characters of a title.
pub const HARD_MAX_TITLE_CHARACTERS: usize = 512;

/// The most characters of a category.
pub const HARD_MAX_CATEGORY_CHARACTERS: usize = 128;

// --------------------------------------------------------------------- counts

/// A text without the characters that group digits.
pub open spec fn ungrouped(value: Seq<char>) -> Seq<char>
    decreases value.len(),
{
    if value.len() == 0 {
        Seq::empty()
    } else if value.last() == ',' || value.last() == '_' || value.last() == ' ' || value.last()
        == '\u{a0}' {
        ungrouped(value.drop_last())
    } else {
        ungrouped(value.drop_last()).push(value.last())
    }
}

/// The count that a text is: decimal digits, possibly grouped, that fit.
pub open spec fn count_in(value: Seq<char>) -> Option<u64> {
    text::number_in(ungrouped(value))
}

proof fn digits_stay(value: Seq<char>)
    requires
        text::all_digits(value),
    ensures
        ungrouped(value) == value,
    decreases value.len(),
{
    if value.len() > 0 {
        assert(text::all_digits(value.drop_last()));
        digits_stay(value.drop_last());
        assert(value.drop_last().push(value.last()) =~= value);
    } else {
        assert(ungrouped(value) =~= value);
    }
}

/// A count that is written in decimal is read back.
pub proof fn counts_read_back(n: u64)
    ensures
        count_in(text::decimal_text(n as nat)) == Some(n),
{
    text::decimal_text_round_trips(n as nat);
    digits_stay(text::decimal_text(n as nat));
}

fn parse_count_chars(chars: &[char]) -> (r: Option<u64>)
    ensures
        r == count_in(chars@),
{
    let mut digits: Vec<char> = Vec::new();
    let mut i: usize = 0;
    proof {
        assert(chars@.take(0) =~= Seq::empty());
    }
    while i < chars.len()
        invariant
            i <= chars@.len(),
            digits@ == ungrouped(chars@.take(i as int)),
        decreases chars@.len() - i,
    {
        proof {
            assert(chars@.take(i as int + 1).drop_last() =~= chars@.take(i as int));
        }
        let c = chars[i];
        if !(c == ',' || c == '_' || c == ' ' || c == '\u{a0}') {
            digits.push(c);
        }
        i = i + 1;
    }
    proof {
        assert(chars@.take(chars@.len() as int) =~= chars@);
    }
    read_number(&digits)
}

/// Reads a count. Nothing but grouped digits is one.
pub fn parse_count(value: &str) -> (r: Option<u64>)
    ensures
        r == count_in(value@),
{
    let chars = chars_of(value);
    parse_count_chars(&chars)
}

// ---------------------------------------------------------------------- sizes

/// A text without commas.
pub open spec fn without_commas(value: Seq<char>) -> Seq<char>
    decreases value.len(),
{
    if value.len() == 0 {
        Seq::empty()
    } else if value.last() == ',' {
        without_commas(value.drop_last())
    } else {
        without_commas(value.drop_last()).push(value.last())
    }
}

/// The power of 1024 that a unit stands for.
pub open spec fn unit_power(unit: Seq<char>) -> Option<nat> {
    if unit == "b"@ || unit == "byte"@ || unit == "bytes"@ {
        Some(0)
    } else if unit == "kb"@ || unit == "kib"@ {
        Some(1)
    } else if unit == "mb"@ || unit == "mib"@ {
        Some(2)
    } else if unit == "gb"@ || unit == "gib"@ {
        Some(3)
    } else if unit == "tb"@ || unit == "tib"@ {
        Some(4)
    } else if unit == "pb"@ || unit == "pib"@ {
        Some(5)
    } else {
        None
    }
}

/// The size that a word and the one after it are: a numeral and a unit, whatever
/// stands around either.
pub open spec fn pair_size(number: Seq<char>, unit: Seq<char>) -> Option<u64> {
    match (
        size::numeral(text::trimmed(number, CharClass::NotNumeral)),
        unit_power(text::lower(text::trimmed(unit, CharClass::NotLetter))),
    ) {
        (Some(n), Some(power)) => size::bytes_of(n, power),
        _ => None,
    }
}

/// The size that the first two neighbouring words which are one are.
pub open spec fn first_pair_size(words: Seq<Seq<char>>) -> Option<u64>
    decreases words.len(),
{
    if words.len() < 2 {
        None
    } else {
        match pair_size(words[0], words[1]) {
            Some(bytes) => Some(bytes),
            None => first_pair_size(words.drop_first()),
        }
    }
}

/// The size in a text: a plain count where that is allowed and the text is one
/// word, or else the first number with a unit.
pub open spec fn size_in(value: Seq<char>, plain: bool) -> Option<u64> {
    let words = text::words(without_commas(value));
    if plain && words.len() == 1 {
        count_in(words[0])
    } else {
        first_pair_size(words)
    }
}

fn read_unit(unit: &[char]) -> (r: Option<u32>)
    ensures
        match r {
            Some(power) => unit_power(unit@) == Some(power as nat) && power <= 5,
            None => unit_power(unit@) is None,
        },
{
    if is_text(unit, "b") || is_text(unit, "byte") || is_text(unit, "bytes") {
        Some(0)
    } else if is_text(unit, "kb") || is_text(unit, "kib") {
        Some(1)
    } else if is_text(unit, "mb") || is_text(unit, "mib") {
        Some(2)
    } else if is_text(unit, "gb") || is_text(unit, "gib") {
        Some(3)
    } else if is_text(unit, "tb") || is_text(unit, "tib") {
        Some(4)
    } else if is_text(unit, "pb") || is_text(unit, "pib") {
        Some(5)
    } else {
        None
    }
}

fn read_pair(number: &[char], unit: &[char]) -> (r: Option<u64>)
    ensures
        r == pair_size(number@, unit@),
{
    let digits = trim(number, CharClass::NotNumeral);
    let letters = trim(unit, CharClass::NotLetter);
    let lowered = lower_chars(&letters);
    match read_unit(&lowered) {
        Some(power) => scaled_bytes(&digits, power),
        None => None,
    }
}

/// Reads a size. A plain count of bytes is taken only where that is allowed.
pub fn parse_size_value(value: &str, allow_plain_bytes: bool) -> (r: Option<u64>)
    ensures
        r == size_in(value@, allow_plain_bytes),
{
    let chars = chars_of(value);
    let mut kept: Vec<char> = Vec::new();
    let mut i: usize = 0;
    proof {
        assert(chars@.take(0) =~= Seq::empty());
    }
    while i < chars.len()
        invariant
            i <= chars@.len(),
            kept@ == without_commas(chars@.take(i as int)),
        decreases chars@.len() - i,
    {
        proof {
            assert(chars@.take(i as int + 1).drop_last() =~= chars@.take(i as int));
        }
        if chars[i] != ',' {
            kept.push(chars[i]);
        }
        i = i + 1;
    }
    proof {
        assert(chars@.take(chars@.len() as int) =~= chars@);
    }
    let words = split_words(&kept);
    let ghost all = text::char_views(words@);
    if allow_plain_bytes && words.len() == 1 {
        proof {
            assert(all[0] == words@[0]@);
        }
        return parse_count_chars(&words[0]);
    }
    let mut k: usize = 0;
    proof {
        assert(all.skip(0) =~= all);
    }
    while k < words.len() && words.len() - k >= 2
        invariant
            k <= words@.len(),
            all == text::char_views(words@),
            size_in(value@, allow_plain_bytes) == first_pair_size(all),
            first_pair_size(all.skip(k as int)) == first_pair_size(all),
        decreases words@.len() - k,
    {
        proof {
            assert(all.skip(k as int)[0] == words@[k as int]@);
            assert(all.skip(k as int)[1] == words@[k as int + 1]@);
            assert(all.skip(k as int).drop_first() =~= all.skip(k as int + 1));
        }
        let found = read_pair(&words[k], &words[k + 1]);
        if found.is_some() {
            return found;
        }
        k = k + 1;
    }
    None
}

/// Reads a size: a plain count of bytes, or a number with a unit.
pub fn parse_size(value: &str) -> (r: Option<u64>)
    ensures
        r == size_in(value@, true),
{
    parse_size_value(value, true)
}

proof fn commas_are_missing(value: Seq<char>)
    requires
        !value.contains(','),
    ensures
        without_commas(value) == value,
    decreases value.len(),
{
    if value.len() > 0 {
        let front = value.drop_last();
        assert(!front.contains(',')) by {
            if front.contains(',') {
                let i = choose|i: int| 0 <= i < front.len() && front[i] == ',';
                assert(value[i] == ',');
            }
        }
        assert(value.last() != ',') by {
            if value.last() == ',' {
                assert(value[value.len() - 1] == ',');
            }
        }
        commas_are_missing(front);
        assert(front.push(value.last()) =~= value);
    } else {
        assert(without_commas(value) =~= value);
    }
}

/// A text of solid characters, none of which is a comma.
spec fn is_solid_word(word: Seq<char>) -> bool {
    word.len() > 0 && forall|i: int|
        0 <= i < word.len() ==> !text::is_white(#[trigger] word[i]) && word[i] != ','
}

proof fn solid_run(word: Seq<char>, tail: Seq<char>)
    requires
        forall|i: int| 0 <= i < word.len() ==> !text::is_white(#[trigger] word[i]),
        tail.len() == 0 || text::is_white(tail[0]),
    ensures
        text::run(word + tail, CharClass::Solid) == word.len(),
    decreases word.len(),
{
    let all = word + tail;
    if word.len() > 0 {
        let rest = word.drop_first();
        assert forall|i: int| 0 <= i < rest.len() implies !text::is_white(#[trigger] rest[i]) by {
            assert(rest[i] == word[i + 1]);
        }
        solid_run(rest, tail);
        assert(all.drop_first() =~= rest + tail);
        assert(all[0] == word[0]);
    } else {
        assert(all =~= tail);
    }
}

proof fn one_word(word: Seq<char>)
    requires
        is_solid_word(word),
    ensures
        text::words(word) == seq![word],
{
    solid_run(word, Seq::empty());
    assert(word + Seq::<char>::empty() =~= word);
    assert(!text::is_white(word[0]));
    let rest = text::strip_start(word, CharClass::White);
    assert(rest =~= word);
    let end = word.skip(word.len() as int);
    assert(end =~= Seq::empty());
    assert(text::strip_start(end, CharClass::White) =~= Seq::empty());
    assert(text::words(end) =~= Seq::empty());
    assert(rest.take(word.len() as int) =~= word);
    assert(text::words(word) =~= seq![word]);
}

proof fn two_words(first: Seq<char>, second: Seq<char>)
    requires
        is_solid_word(first),
        is_solid_word(second),
    ensures
        text::words(first + " "@ + second) == seq![first, second],
{
    reveal_strlit(" ");
    let tail = " "@ + second;
    let all = first + " "@ + second;
    assert(all =~= first + tail);
    assert(tail[0] == ' ');
    solid_run(first, tail);
    assert(all[0] == first[0]);
    assert(!text::is_white(first[0]));
    let rest = text::strip_start(all, CharClass::White);
    assert(rest =~= all);
    assert(all.take(first.len() as int) =~= first);
    assert(all.skip(first.len() as int) =~= tail);
    solid_run(second, Seq::empty());
    assert(second + Seq::<char>::empty() =~= second);
    assert(tail.drop_first() =~= second);
    assert(!text::is_white(second[0]));
    assert(text::run(second, CharClass::White) == 0);
    assert(text::run(tail, CharClass::White) == 1);
    let last = text::strip_start(tail, CharClass::White);
    assert(last =~= second);
    let end = second.skip(second.len() as int);
    assert(end =~= Seq::empty());
    assert(text::strip_start(end, CharClass::White) =~= Seq::empty());
    assert(text::words(end) =~= Seq::empty());
    assert(second.take(second.len() as int) =~= second);
    assert(text::words(tail) =~= seq![second]);
    assert(text::words(all) =~= seq![first, second]);
}

proof fn nothing_is_trimmed(word: Seq<char>, class: CharClass)
    requires
        word.len() > 0,
        !class.has(word[0]),
        !class.has(word.last()),
    ensures
        text::trimmed(word, class) == word,
{
    assert(text::strip_start(word, class) =~= word);
}

proof fn units_are_letters(unit: Seq<char>)
    requires
        unit_power(text::lower(unit)) is Some,
    ensures
        unit.len() > 0,
        forall|i: int| 0 <= i < unit.len() ==> text::is_letter(#[trigger] unit[i]),
{
    let lowered = text::lower(unit);
    reveal_strlit("b");
    reveal_strlit("byte");
    reveal_strlit("bytes");
    reveal_strlit("kb");
    reveal_strlit("kib");
    reveal_strlit("mb");
    reveal_strlit("mib");
    reveal_strlit("gb");
    reveal_strlit("gib");
    reveal_strlit("tb");
    reveal_strlit("tib");
    reveal_strlit("pb");
    reveal_strlit("pib");
    assert(lowered.len() > 0);
    assert forall|i: int| 0 <= i < unit.len() implies text::is_letter(#[trigger] unit[i]) by {
        assert('a' <= lowered[i] && lowered[i] <= 'z');
    }
}

/// A whole number below two to the power of 53 with a unit is that many units:
/// whatever the case of the unit's letters, decimal and binary names mean the same
/// powers of 1024. The product must fit.
pub proof fn sizes_read_back(n: u64, unit: Seq<char>, plain: bool)
    requires
        n < 0x20_0000_0000_0000,
        unit_power(text::lower(unit)) is Some,
        n * size::kib_to(unit_power(text::lower(unit))->0) <= u64::MAX,
    ensures
        size_in(text::decimal_text(n as nat) + " "@ + unit, plain) == Some(
            (n * size::kib_to(unit_power(text::lower(unit))->0)) as u64,
        ),
{
    let power = unit_power(text::lower(unit))->0;
    let digits = text::decimal_text(n as nat);
    let value = digits + " "@ + unit;
    text::decimal_text_round_trips(n as nat);
    units_are_letters(unit);
    reveal_strlit(" ");
    assert(is_solid_word(digits)) by {
        assert forall|i: int| 0 <= i < digits.len() implies !text::is_white(#[trigger] digits[i])
            && digits[i] != ',' by {
            assert(text::is_digit(digits[i]));
        }
    }
    assert(is_solid_word(unit)) by {
        assert forall|i: int| 0 <= i < unit.len() implies !text::is_white(#[trigger] unit[i])
            && unit[i] != ',' by {
            assert(text::is_letter(unit[i]));
        }
    }
    assert(!value.contains(',')) by {
        if value.contains(',') {
            let i = choose|i: int| 0 <= i < value.len() && value[i] == ',';
            if i < digits.len() {
                assert(digits[i] == ',');
            } else if i > digits.len() {
                assert(unit[i - digits.len() - 1] == ',');
            }
        }
    }
    commas_are_missing(value);
    two_words(digits, unit);
    assert(text::is_digit(digits[0]) && text::is_digit(digits[digits.len() - 1]));
    assert(text::is_letter(unit[0]) && text::is_letter(unit[unit.len() - 1]));
    nothing_is_trimmed(digits, CharClass::NotNumeral);
    nothing_is_trimmed(unit, CharClass::NotLetter);
    size::whole_units_are_exact(n as nat, power);
}

/// A number with a fraction, and a unit after a space, is read as that number of
/// units: the digits before and after the full stop are one number, with as many
/// places as there are digits after it.
pub proof fn fractions_are_read(
    whole: Seq<char>,
    fraction: Seq<char>,
    unit: Seq<char>,
    plain: bool,
)
    requires
        whole.len() > 0,
        fraction.len() > 0,
        text::all_digits(whole),
        text::all_digits(fraction),
        unit_power(text::lower(unit)) is Some,
    ensures
        size_in(whole + "."@ + fraction + " "@ + unit, plain) == size::bytes_of(
            size::Numeral { digits: whole + fraction, exponent: -(fraction.len() as int) },
            unit_power(text::lower(unit))->0,
        ),
{
    reveal_strlit(".");
    reveal_strlit(" ");
    let number = whole + "."@ + fraction;
    let value = number + " "@ + unit;
    units_are_letters(unit);
    assert(is_solid_word(number)) by {
        assert forall|i: int| 0 <= i < number.len() implies !text::is_white(#[trigger] number[i])
            && number[i] != ',' by {
            if i < whole.len() {
                assert(text::is_digit(whole[i]));
            } else if i > whole.len() {
                assert(text::is_digit(fraction[i - whole.len() - 1]));
            }
        }
    }
    assert(is_solid_word(unit)) by {
        assert forall|i: int| 0 <= i < unit.len() implies !text::is_white(#[trigger] unit[i])
            && unit[i] != ',' by {
            assert(text::is_letter(unit[i]));
        }
    }
    assert(!value.contains(',')) by {
        if value.contains(',') {
            let i = choose|i: int| 0 <= i < value.len() && value[i] == ',';
            if i < number.len() {
                assert(number[i] == ',');
            } else if i > number.len() {
                assert(unit[i - number.len() - 1] == ',');
            }
        }
    }
    commas_are_missing(value);
    two_words(number, unit);
    assert(number[0] == whole[0] && number.last() == fraction.last());
    assert(text::is_digit(whole[0]) && text::is_digit(fraction[fraction.len() - 1]));
    assert(text::is_letter(unit[0]) && text::is_letter(unit[unit.len() - 1]));
    nothing_is_trimmed(number, CharClass::NotNumeral);
    nothing_is_trimmed(unit, CharClass::NotLetter);
    size::numerals_have_fractions(whole, fraction);
    let words = seq![number, unit];
    assert(first_pair_size(words.drop_first()) is None);
    assert(size_in(value, plain) == first_pair_size(words));
}

/// A plain count of bytes is read as it is, where one is allowed.
pub proof fn plain_sizes_read_back(n: u64)
    ensures
        size_in(text::decimal_text(n as nat), true) == Some(n),
{
    let digits = text::decimal_text(n as nat);
    text::decimal_text_round_trips(n as nat);
    assert(is_solid_word(digits)) by {
        assert forall|i: int| 0 <= i < digits.len() implies !text::is_white(#[trigger] digits[i])
            && digits[i] != ',' by {
            assert(text::is_digit(digits[i]));
        }
    }
    assert(!digits.contains(',')) by {
        if digits.contains(',') {
            let i = choose|i: int| 0 <= i < digits.len() && digits[i] == ',';
            assert(text::is_digit(digits[i]));
        }
    }
    commas_are_missing(digits);
    one_word(digits);
    counts_read_back(n);
}

/// The names of units: a decimal name and the binary one beside it stand for the
/// same power of 1024.
pub proof fn unit_names_agree()
    ensures
        unit_power("b"@) == Some(0nat),
        unit_power("byte"@) == Some(0nat),
        unit_power("bytes"@) == Some(0nat),
        unit_power("kb"@) == Some(1nat),
        unit_power("kib"@) == Some(1nat),
        unit_power("mb"@) == Some(2nat),
        unit_power("mib"@) == Some(2nat),
        unit_power("gb"@) == Some(3nat),
        unit_power("gib"@) == Some(3nat),
        unit_power("tb"@) == Some(4nat),
        unit_power("tib"@) == Some(4nat),
        unit_power("pb"@) == Some(5nat),
        unit_power("pib"@) == Some(5nat),
{
    reveal_strlit("b");
    reveal_strlit("byte");
    reveal_strlit("bytes");
    reveal_strlit("kb");
    reveal_strlit("kib");
    reveal_strlit("mb");
    reveal_strlit("mib");
    reveal_strlit("gb");
    reveal_strlit("gib");
    reveal_strlit("tb");
    reveal_strlit("tib");
    reveal_strlit("pb");
    reveal_strlit("pib");
    assert("kb"@[0] == 'k' && "mb"@[0] == 'm' && "gb"@[0] == 'g' && "tb"@[0] == 't' && "pb"@[0]
        == 'p');
    assert("kib"@[0] == 'k' && "mib"@[0] == 'm' && "gib"@[0] == 'g' && "tib"@[0] == 't' && "pib"@[0]
        == 'p');
}

// ------------------------------------------------------------------- ranking

/// A count, zero where it is unknown.
pub open spec fn known_or_zero(count: Option<u64>) -> u64 {
    match count {
        Some(count) => count,
        None => 0,
    }
}

/// The order of two results: more seeders first, then by name without regard to
/// case, by hash, and by host.
pub open spec fn result_order(left: model::TorrentModel, right: model::TorrentModel) -> Order {
    order::number_order(
        known_or_zero(right.seeders) as int,
        known_or_zero(left.seeders) as int,
    ).or_then(
        order::text_order(
            text::unicode_lowercase(left.name),
            text::unicode_lowercase(right.name),
        ),
    ).or_then(order::text_order(left.magnet.hash, right.magnet.hash)).or_then(
        order::text_order(left.source_host, right.source_host),
    )
}

/// Whether one result comes after another.
pub open spec fn result_after() -> spec_fn(model::TorrentModel, model::TorrentModel) -> bool {
    |left: model::TorrentModel, right: model::TorrentModel|
        result_order(left, right) == Order::After
}

/// The hashes of results.
pub open spec fn hashes(results: Seq<model::TorrentModel>) -> Seq<Seq<char>> {
    Seq::new(results.len(), |i: int| results[i].magnet.hash)
}

/// The results without those whose hash came before.
pub open spec fn deduplicated(results: Seq<model::TorrentModel>) -> Seq<model::TorrentModel>
    decreases results.len(),
{
    if results.len() == 0 {
        Seq::empty()
    } else {
        let front = deduplicated(results.drop_last());
        if hashes(front).contains(results.last().magnet.hash) {
            front
        } else {
            front.push(results.last())
        }
    }
}

/// Results in order, one for each torrent.
pub open spec fn normalized_results(results: Seq<model::TorrentModel>) -> Seq<model::TorrentModel> {
    deduplicated(ranking::ranked(results, result_after()))
}

fn compare_texts(left: &str, right: &str) -> (r: Order)
    ensures
        r == order::text_order(left@, right@),
{
    let a = chars_of(left);
    let b = chars_of(right);
    compare_chars(&a, &b)
}

fn count_or_zero(count: Option<u64>) -> (r: u64)
    ensures
        r == known_or_zero(count),
{
    match count {
        Some(count) => count,
        None => 0,
    }
}

fn compare_results(left: &TorrentResult, right: &TorrentResult) -> (r: Order)
    ensures
        r == result_order(left@, right@),
{
    let seeders = compare_counts(count_or_zero(right.seeders), count_or_zero(left.seeders));
    if seeders != Order::Same {
        return seeders;
    }
    let left_name = left.name.as_str().to_lowercase();
    let right_name = right.name.as_str().to_lowercase();
    let names = compare_texts(left_name.as_str(), right_name.as_str());
    if names != Order::Same {
        return names;
    }
    let torrents = compare_texts(left.info_hash().as_str(), right.info_hash().as_str());
    if torrents != Order::Same {
        return torrents;
    }
    compare_texts(left.source_host.as_str(), right.source_host.as_str())
}

fn place_result(list: &mut Vec<TorrentResult>, result: TorrentResult)
    ensures
        model::result_views(final(list)@) == ranking::placed(
            model::result_views(old(list)@),
            result@,
            result_after(),
        ),
{
    let ghost before = model::result_views(list@);
    let mut at: usize = list.len();
    while at > 0 && compare_results(&list[at - 1], &result) == Order::After
        invariant
            at <= list@.len(),
            before == model::result_views(list@),
            forall|i: int| at <= i < list@.len() ==> result_after()(#[trigger] before[i], result@),
        decreases at,
    {
        proof {
            assert(before[at as int - 1] == list@[at as int - 1]@);
        }
        at = at - 1;
    }
    proof {
        if at > 0 {
            assert(before[at as int - 1] == list@[at as int - 1]@);
        }
        ranking::placed_at(before, result@, result_after(), at as int);
    }
    list.insert(at, result);
    proof {
        assert(model::result_views(list@) =~= before.insert(at as int, result@));
    }
}

fn holds_hash(list: &Vec<TorrentResult>, hash: &str) -> (r: bool)
    ensures
        r == hashes(model::result_views(list@)).contains(hash@),
{
    let ghost known = hashes(model::result_views(list@));
    let mut i: usize = 0;
    while i < list.len()
        invariant
            i <= list@.len(),
            known == hashes(model::result_views(list@)),
            forall|j: int| 0 <= j < i ==> known[j] != hash@,
        decreases list@.len() - i,
    {
        if same_text(list[i].info_hash().as_str(), hash) {
            proof {
                assert(known[i as int] == hash@);
            }
            return true;
        }
        i = i + 1;
    }
    false
}

/// Puts results in order and keeps the first of each torrent.
pub fn normalize_results(results: Vec<TorrentResult>) -> (r: Vec<TorrentResult>)
    ensures
        model::result_views(r@) == normalized_results(model::result_views(results@)),
{
    let ghost all = model::result_views(results@);
    let mut list: Vec<TorrentResult> = Vec::new();
    let mut i: usize = 0;
    proof {
        assert(all.take(0) =~= Seq::empty());
        assert(model::result_views(list@) =~= Seq::empty());
    }
    while i < results.len()
        invariant
            i <= results@.len(),
            all == model::result_views(results@),
            model::result_views(list@) == ranking::ranked(all.take(i as int), result_after()),
        decreases results@.len() - i,
    {
        proof {
            assert(all.take(i as int + 1).drop_last() =~= all.take(i as int));
            assert(all.take(i as int + 1).last() == results@[i as int]@);
        }
        place_result(&mut list, results[i].clone());
        i = i + 1;
    }
    let ghost ordered = model::result_views(list@);
    let mut out: Vec<TorrentResult> = Vec::new();
    let mut k: usize = 0;
    proof {
        assert(all.take(all.len() as int) =~= all);
        assert(ordered.take(0) =~= Seq::empty());
        assert(model::result_views(out@) =~= Seq::empty());
    }
    while k < list.len()
        invariant
            k <= list@.len(),
            ordered == model::result_views(list@),
            model::result_views(out@) == deduplicated(ordered.take(k as int)),
        decreases list@.len() - k,
    {
        proof {
            assert(ordered.take(k as int + 1).drop_last() =~= ordered.take(k as int));
            assert(ordered.take(k as int + 1).last() == list@[k as int]@);
        }
        if !holds_hash(&out, list[k].info_hash().as_str()) {
            let ghost before = model::result_views(out@);
            let kept = list[k].clone();
            out.push(kept);
            proof {
                assert(model::result_views(out@) =~= before.push(kept@));
            }
        }
        k = k + 1;
    }
    proof {
        assert(ordered.take(ordered.len() as int) =~= ordered);
    }
    out
}

// ------------------------------------------------------- laws of the ranking

/// The order of results is a ranking: it orders any two, up to ties, and is
/// transitive.
pub proof fn result_order_is_ranking()
    ensures
        ranking::is_ranking(result_after()),
{
    let after = result_after();
    assert forall|x: model::TorrentModel, y: model::TorrentModel| #[trigger]
        after(x, y) implies !after(y, x) by {
        flips(x, y);
    }
    assert forall|x: model::TorrentModel, y: model::TorrentModel, z: model::TorrentModel|
        !#[trigger] after(x, y) && !#[trigger] after(y, z) implies !after(x, z) by {
        chains(x, y, z);
    }
}

proof fn flips(x: model::TorrentModel, y: model::TorrentModel)
    ensures
        result_order(y, x) == result_order(x, y).flipped(),
{
    order::lex_order_flips(
        order::codes(text::unicode_lowercase(x.name)),
        order::codes(text::unicode_lowercase(y.name)),
    );
    order::lex_order_flips(order::codes(x.magnet.hash), order::codes(y.magnet.hash));
    order::lex_order_flips(order::codes(x.source_host), order::codes(y.source_host));
}

proof fn level_chains(a: Seq<int>, b: Seq<int>, c: Seq<int>)
    ensures
        order::lex_order(a, b) != Order::After && order::lex_order(b, c) != Order::After
            ==> order::lex_order(a, c) != Order::After,
        order::lex_order(a, b) != Order::After && order::lex_order(b, c) != Order::After
            && order::lex_order(a, c) == Order::Same ==> order::lex_order(a, b) == Order::Same
            && order::lex_order(b, c) == Order::Same,
{
    order::lex_order_chains(a, b, c);
    order::lex_order_same(a, c);
    order::lex_order_same(a, b);
    order::lex_order_same(b, c);
    order::lex_order_flips(a, b);
    order::lex_order_flips(b, c);
}

proof fn chains(x: model::TorrentModel, y: model::TorrentModel, z: model::TorrentModel)
    requires
        result_order(x, y) != Order::After,
        result_order(y, z) != Order::After,
    ensures
        result_order(x, z) != Order::After,
{
    level_chains(
        order::codes(text::unicode_lowercase(x.name)),
        order::codes(text::unicode_lowercase(y.name)),
        order::codes(text::unicode_lowercase(z.name)),
    );
    level_chains(
        order::codes(x.magnet.hash),
        order::codes(y.magnet.hash),
        order::codes(z.magnet.hash),
    );
    level_chains(
        order::codes(x.source_host),
        order::codes(y.source_host),
        order::codes(z.source_host),
    );
}

/// What is kept has a result for every hash, and only one.
pub proof fn deduplicated_holds(results: Seq<model::TorrentModel>)
    ensures
        discovery::all_distinct(hashes(deduplicated(results))),
        forall|i: int|
            0 <= i < results.len() ==> hashes(deduplicated(results)).contains(
                #[trigger] results[i].magnet.hash,
            ),
        deduplicated(results).len() <= results.len(),
    decreases results.len(),
{
    if results.len() > 0 {
        let last = results.last();
        let rest = results.drop_last();
        let front = deduplicated(rest);
        let all = deduplicated(results);
        deduplicated_holds(rest);
        let keys = hashes(all);
        let known = hashes(front);
        if all != front {
            assert(keys =~= known.push(last.magnet.hash));
            assert forall|i: int, j: int| 0 <= i < j < keys.len() implies #[trigger] keys[i]
                != #[trigger] keys[j] by {
                if j == known.len() {
                    assert(known[i] == keys[i]);
                } else {
                    assert(known[i] == keys[i] && known[j] == keys[j]);
                }
            }
        }
        assert forall|i: int| 0 <= i < results.len() implies keys.contains(
            #[trigger] results[i].magnet.hash,
        ) by {
            if i < rest.len() {
                assert(rest[i] == results[i]);
                let k = choose|k: int| 0 <= k < known.len() && known[k] == rest[i].magnet.hash;
                assert(keys[k] == known[k]);
            } else if all != front {
                assert(keys[known.len() as int] == last.magnet.hash);
            }
        }
    }
}

/// Where in `results` each one that is kept stands: in the same order.
pub proof fn deduplicated_in_order(
    results: Seq<model::TorrentModel>,
    after: spec_fn(model::TorrentModel, model::TorrentModel) -> bool,
)
    requires
        ranking::in_order(results, after),
    ensures
        ranking::in_order(deduplicated(results), after),
        forall|i: int|
            0 <= i < deduplicated(results).len() ==> results.contains(
                #[trigger] deduplicated(results)[i],
            ),
    decreases results.len(),
{
    if results.len() > 0 {
        let last = results.last();
        let rest = results.drop_last();
        let front = deduplicated(rest);
        let all = deduplicated(results);
        assert forall|i: int, j: int| 0 <= i < j < rest.len() implies !after(
            #[trigger] rest[i],
            #[trigger] rest[j],
        ) by {
            assert(rest[i] == results[i] && rest[j] == results[j]);
        }
        deduplicated_in_order(rest, after);
        assert forall|i: int| 0 <= i < all.len() implies results.contains(#[trigger] all[i]) by {
            if i < front.len() {
                let k = choose|k: int| 0 <= k < rest.len() && rest[k] == front[i];
                assert(results[k] == all[i]);
            } else {
                assert(results[results.len() - 1] == all[i]);
            }
        }
        assert forall|i: int, j: int| 0 <= i < j < all.len() implies !after(
            #[trigger] all[i],
            #[trigger] all[j],
        ) by {
            if j < front.len() {
                assert(all[i] == front[i] && all[j] == front[j]);
            } else {
                let k = choose|k: int| 0 <= k < rest.len() && rest[k] == front[i];
                assert(results[k] == all[i]);
                assert(!after(results[k], results[results.len() - 1]));
            }
        }
    }
}

/// Ranking neither adds nor drops a result.
pub proof fn ranked_elements(results: Seq<model::TorrentModel>, x: model::TorrentModel)
    ensures
        ranking::ranked(results, result_after()).contains(x) <==> results.contains(x),
{
    broadcast use vstd::seq_lib::group_to_multiset_ensures;

    ranking::ranked_keeps(results, result_after());
    let sorted = ranking::ranked(results, result_after());
    assert(sorted.to_multiset().count(x) == results.to_multiset().count(x));
    assert(sorted.contains(x) <==> sorted.to_multiset().count(x) > 0);
    assert(results.contains(x) <==> results.to_multiset().count(x) > 0);
}

/// Normalized results hold one result for each torrent that was found and
/// nothing else, in order.
pub proof fn normalized_results_are_ranked(results: Seq<model::TorrentModel>)
    ensures
        ranking::in_order(normalized_results(results), result_after()),
        discovery::all_distinct(hashes(normalized_results(results))),
        forall|i: int|
            0 <= i < results.len() ==> hashes(normalized_results(results)).contains(
                #[trigger] results[i].magnet.hash,
            ),
        forall|i: int|
            0 <= i < normalized_results(results).len() ==> results.contains(
                #[trigger] normalized_results(results)[i],
            ),
        normalized_results(results).len() <= results.len(),
{
    let sorted = ranking::ranked(results, result_after());
    result_order_is_ranking();
    ranking::ranked_in_order(results, result_after());
    ranking::ranked_keeps(results, result_after());
    deduplicated_in_order(sorted, result_after());
    deduplicated_holds(sorted);
    assert forall|i: int| 0 <= i < results.len() implies hashes(
        normalized_results(results),
    ).contains(#[trigger] results[i].magnet.hash) by {
        ranked_elements(results, results[i]);
        assert(results.contains(results[i]));
        let k = choose|k: int| 0 <= k < sorted.len() && sorted[k] == results[i];
        assert(hashes(deduplicated(sorted)).contains(sorted[k].magnet.hash));
    }
    assert forall|i: int| 0 <= i < normalized_results(results).len() implies results.contains(
        #[trigger] normalized_results(results)[i],
    ) by {
        ranked_elements(results, normalized_results(results)[i]);
    }
}

proof fn distinct_stay(results: Seq<model::TorrentModel>)
    requires
        discovery::all_distinct(hashes(results)),
    ensures
        deduplicated(results) == results,
    decreases results.len(),
{
    if results.len() > 0 {
        let rest = results.drop_last();
        let keys = hashes(results);
        let known = hashes(rest);
        assert forall|i: int, j: int| 0 <= i < j < known.len() implies #[trigger] known[i]
            != #[trigger] known[j] by {
            assert(known[i] == keys[i] && known[j] == keys[j]);
        }
        distinct_stay(rest);
        if known.contains(results.last().magnet.hash) {
            let k = choose|k: int| 0 <= k < known.len() && known[k] == results.last().magnet.hash;
            assert(keys[k] == keys[results.len() - 1]);
        }
        assert(rest.push(results.last()) =~= results);
    } else {
        assert(deduplicated(results) =~= results);
    }
}

/// Normalizing results once more changes nothing.
pub proof fn normalized_results_again(results: Seq<model::TorrentModel>)
    ensures
        normalized_results(normalized_results(results)) == normalized_results(results),
{
    let once = normalized_results(results);
    normalized_results_are_ranked(results);
    ranking::ranked_again(once, result_after());
    distinct_stay(once);
}

/// Whether two lists hold results that tie, place by place.
pub open spec fn tie_throughout(left: Seq<model::TorrentModel>, right: Seq<model::TorrentModel>) -> bool {
    left.len() == right.len() && forall|i: int|
        0 <= i < left.len() ==> result_order(#[trigger] left[i], right[i]) == Order::Same
}

proof fn ties_share_a_hash(x: model::TorrentModel, y: model::TorrentModel)
    requires
        result_order(x, y) == Order::Same,
    ensures
        x.magnet.hash == y.magnet.hash,
{
    let a = order::codes(x.magnet.hash);
    let b = order::codes(y.magnet.hash);
    order::lex_order_same(a, b);
    assert forall|i: int| 0 <= i < a.len() implies x.magnet.hash[i] == y.magnet.hash[i] by {
        assert(a[i] == b[i]);
    }
    assert(a.len() == b.len());
    assert(x.magnet.hash =~= y.magnet.hash);
}

proof fn ties_stay(left: Seq<model::TorrentModel>, right: Seq<model::TorrentModel>)
    requires
        tie_throughout(left, right),
    ensures
        tie_throughout(deduplicated(left), deduplicated(right)),
        hashes(deduplicated(left)) == hashes(deduplicated(right)),
    decreases left.len(),
{
    if left.len() > 0 {
        let a = left.drop_last();
        let b = right.drop_last();
        let end = left.len() - 1;
        assert forall|i: int| 0 <= i < a.len() implies result_order(#[trigger] a[i], b[i])
            == Order::Same by {
            assert(result_order(left[i], right[i]) == Order::Same);
        }
        ties_stay(a, b);
        assert(result_order(left[end], right[end]) == Order::Same);
        ties_share_a_hash(left[end], right[end]);
        let known = hashes(deduplicated(a));
        let hash = left[end].magnet.hash;
        if !known.contains(hash) {
            assert(hashes(deduplicated(left)) =~= known.push(hash));
            assert(hashes(deduplicated(right)) =~= known.push(hash));
        }
    } else {
        assert(hashes(deduplicated(left)) =~= hashes(deduplicated(right)));
    }
}

/// The order of the rows does not matter: from the same rows in any order, the
/// same torrents come out in the same order, place by place with results that
/// tie in seeders, name, hash and host. Where different results never tie, the
/// results are the same.
pub proof fn row_order_does_not_matter(
    left: Seq<model::TorrentModel>,
    right: Seq<model::TorrentModel>,
)
    requires
        left.to_multiset() == right.to_multiset(),
    ensures
        hashes(normalized_results(left)) == hashes(normalized_results(right)),
        tie_throughout(normalized_results(left), normalized_results(right)),
        (forall|i: int, j: int|
            0 <= i < left.len() && 0 <= j < left.len() && result_order(
                #[trigger] left[i],
                #[trigger] left[j],
            ) == Order::Same ==> left[i] == left[j]) ==> normalized_results(left)
            == normalized_results(right),
{
    broadcast use vstd::seq_lib::group_to_multiset_ensures;

    let a = ranking::ranked(left, result_after());
    let b = ranking::ranked(right, result_after());
    result_order_is_ranking();
    ranking::arrival_does_not_matter(left, right, result_after());
    assert forall|i: int| 0 <= i < a.len() implies result_order(#[trigger] a[i], b[i])
        == Order::Same by {
        assert(!result_after()(a[i], b[i]) && !result_after()(b[i], a[i]));
        flips(a[i], b[i]);
    }
    ties_stay(a, b);
    let once = normalized_results(left);
    let other = normalized_results(right);
    if forall|i: int, j: int|
        0 <= i < left.len() && 0 <= j < left.len() && result_order(
            #[trigger] left[i],
            #[trigger] left[j],
        ) == Order::Same ==> left[i] == left[j] {
        normalized_results_are_ranked(left);
        normalized_results_are_ranked(right);
        assert forall|i: int| 0 <= i < once.len() implies once[i] == other[i] by {
            assert(result_order(once[i], other[i]) == Order::Same);
            assert(left.contains(once[i]));
            assert(right.contains(other[i]));
            assert(right.to_multiset().count(other[i]) > 0);
            assert(left.contains(other[i]));
            let j = choose|j: int| 0 <= j < left.len() && left[j] == once[i];
            let k = choose|k: int| 0 <= k < left.len() && left[k] == other[i];
            assert(result_order(left[j], left[k]) == Order::Same);
        }
        assert(once =~= other);
    }
}

/// The first of normalized results has the most seeders of all that were found.
pub proof fn first_has_most_seeders(results: Seq<model::TorrentModel>, i: int)
    requires
        0 <= i < results.len(),
    ensures
        normalized_results(results).len() > 0,
        known_or_zero(results[i].seeders) <= known_or_zero(normalized_results(results)[0].seeders),
{
    let sorted = ranking::ranked(results, result_after());
    result_order_is_ranking();
    ranking::ranked_in_order(results, result_after());
    ranked_elements(results, results[i]);
    assert(results.contains(results[i]));
    let k = choose|k: int| 0 <= k < sorted.len() && sorted[k] == results[i];
    first_stays(sorted);
    if k > 0 {
        assert(!result_after()(sorted[0], sorted[k]));
    }
}

proof fn first_stays(results: Seq<model::TorrentModel>)
    requires
        results.len() > 0,
    ensures
        deduplicated(results).len() > 0,
        deduplicated(results)[0] == results[0],
    decreases results.len(),
{
    if results.len() > 1 {
        first_stays(results.drop_last());
    } else {
        assert(deduplicated(results.drop_last()) =~= Seq::empty());
        assert(hashes(Seq::<model::TorrentModel>::empty()) =~= Seq::empty());
    }
}

// ------------------------------------------------------------------------ rows

/// What is looked for in a result row, each list by its place here: links,
/// cells, titles, counts, sizes and categories.
pub open spec fn row_selectors() -> Seq<Seq<char>> {
    seq![
        "a[href]"@,
        "td"@,
        "a.detLink"@,
        ".detName a"@,
        ".item-name"@,
        ".name"@,
        "[data-title]"@,
        "[data-name]"@,
        "a[href*='/torrent/']"@,
        "a[href*='/description/']"@,
        "[data-seeders]"@,
        "[data-seeds]"@,
        ".seeders"@,
        ".seeds"@,
        ".item-seed"@,
        "[data-leechers]"@,
        "[data-leeches]"@,
        "[data-peers]"@,
        ".leechers"@,
        ".leeches"@,
        ".item-leech"@,
        ".peers"@,
        "[data-size]"@,
        "[data-bytes]"@,
        ".size"@,
        ".item-size"@,
        ".detDesc"@,
        ".description"@,
        ".category"@,
        ".item-type"@,
        ".type"@,
    ]
}

/// The first value, or else the second.
pub open spec fn either<T>(first: Option<T>, second: Option<T>) -> Option<T> {
    match first {
        Some(value) => Some(value),
        None => second,
    }
}

/// The first magnet link among anchors. An anchor without an address ends the
/// search.
pub open spec fn first_magnet(anchors: Seq<dom::ElementModel>) -> Option<model::MagnetModel>
    decreases anchors.len(),
{
    if anchors.len() == 0 {
        None
    } else {
        match anchors[0].attr("href"@) {
            None => None,
            Some(href) => match model::magnet_outcome(href) {
                Ok(magnet) => Some(magnet),
                Err(_) => first_magnet(anchors.drop_first()),
            },
        }
    }
}

/// A text made safe to show, where anything is left of it.
pub open spec fn shown(value: Seq<char>, limit: nat) -> Option<Seq<char>> {
    if model::sanitized(value, limit).len() > 0 {
        Some(model::sanitized(value, limit))
    } else {
        None
    }
}

/// What an element says of a title: its data attribute, or else its text.
pub open spec fn title_of(element: dom::ElementModel) -> Seq<char> {
    match either(element.attr("data-title"@), element.attr("data-name"@)) {
        Some(value) => value,
        None => element.spaced_text(),
    }
}

/// The first title among elements.
pub open spec fn first_title(elements: Seq<dom::ElementModel>) -> Option<Seq<char>>
    decreases elements.len(),
{
    if elements.len() == 0 {
        None
    } else {
        either(
            shown(title_of(elements[0]), HARD_MAX_TITLE_CHARACTERS as nat),
            first_title(elements.drop_first()),
        )
    }
}

/// The first title among the lists from `from` to `to`, of each of which the
/// first four elements count.
pub open spec fn title_in(parts: Seq<Seq<dom::ElementModel>>, from: int, to: int) -> Option<Seq<char>>
    decreases to - from,
{
    if from >= to {
        None
    } else {
        either(first_title(discovery::bounded(parts[from], 4)), title_in(parts, from + 1, to))
    }
}

/// The value of the first pair with a key.
pub open spec fn first_value(pairs: Seq<(Seq<char>, Seq<char>)>, key: Seq<char>) -> Option<Seq<char>>
    decreases pairs.len(),
{
    if pairs.len() == 0 {
        None
    } else if pairs[0].0 == key {
        Some(pairs[0].1)
    } else {
        first_value(pairs.drop_first(), key)
    }
}

/// The display name that query pairs give.
pub open spec fn display_name(pairs: Seq<(Seq<char>, Seq<char>)>) -> Option<Seq<char>> {
    match first_value(pairs, "dn"@) {
        Some(value) => shown(value, HARD_MAX_TITLE_CHARACTERS as nat),
        None => None,
    }
}

/// The display name that a magnet link gives.
pub open spec fn magnet_name(href: Seq<char>) -> Option<Seq<char>> {
    match weburl::url_parse(href) {
        Some(url) => display_name(model::link_pairs(url)),
        None => None,
    }
}

/// The count that an element gives, by an attribute or by its text.
pub open spec fn count_of(element: dom::ElementModel, attribute: Option<Seq<char>>) -> Option<u64> {
    match attribute {
        Some(name) => match element.attr(name) {
            Some(value) => count_in(value),
            None => None,
        },
        None => count_in(element.spaced_text()),
    }
}

/// The first count among elements.
pub open spec fn first_count(
    elements: Seq<dom::ElementModel>,
    attribute: Option<Seq<char>>,
) -> Option<u64>
    decreases elements.len(),
{
    if elements.len() == 0 {
        None
    } else {
        either(count_of(elements[0], attribute), first_count(elements.drop_first(), attribute))
    }
}

/// The count that an attribute gives, of the row or else below it.
pub open spec fn attribute_count(
    row: dom::BranchModel,
    part: int,
    attribute: Seq<char>,
) -> Option<u64> {
    either(count_of(row.element, Some(attribute)), first_count(row.parts[part], Some(attribute)))
}

/// The size that an element gives, by an attribute or by its text.
pub open spec fn size_of(element: dom::ElementModel, attribute: Option<Seq<char>>) -> Option<u64> {
    match attribute {
        Some(name) => match element.attr(name) {
            Some(value) => size_in(value, true),
            None => None,
        },
        None => size_in(element.spaced_text(), false),
    }
}

/// The first size among elements.
pub open spec fn first_size(
    elements: Seq<dom::ElementModel>,
    attribute: Option<Seq<char>>,
) -> Option<u64>
    decreases elements.len(),
{
    if elements.len() == 0 {
        None
    } else {
        either(size_of(elements[0], attribute), first_size(elements.drop_first(), attribute))
    }
}

/// The size that an attribute gives, of the row or else below it.
pub open spec fn attribute_size(row: dom::BranchModel, part: int, attribute: Seq<char>) -> Option<
    u64,
> {
    either(size_of(row.element, Some(attribute)), first_size(row.parts[part], Some(attribute)))
}

/// The count in the cell that is `back` cells from the end of the first 32.
pub open spec fn cell_count(cells: Seq<dom::ElementModel>, back: int) -> Option<u64> {
    let front = discovery::bounded(cells, 32);
    if front.len() >= back {
        count_in(front[front.len() - back].spaced_text())
    } else {
        None
    }
}

/// The seeders of a row.
#[verifier::opaque]
pub open spec fn row_seeders(row: dom::BranchModel) -> Option<u64> {
    either(
        attribute_count(row, 10, "data-seeders"@),
        either(
            attribute_count(row, 11, "data-seeds"@),
            either(
                first_count(row.parts[12], None),
                either(
                    first_count(row.parts[13], None),
                    either(first_count(row.parts[14], None), cell_count(row.parts[1], 2)),
                ),
            ),
        ),
    )
}

/// The leechers of a row.
#[verifier::opaque]
pub open spec fn row_leechers(row: dom::BranchModel) -> Option<u64> {
    either(
        attribute_count(row, 15, "data-leechers"@),
        either(
            attribute_count(row, 16, "data-leeches"@),
            either(
                attribute_count(row, 17, "data-peers"@),
                either(
                    first_count(row.parts[18], None),
                    either(
                        first_count(row.parts[19], None),
                        either(
                            first_count(row.parts[20], None),
                            either(first_count(row.parts[21], None), cell_count(row.parts[1], 1)),
                        ),
                    ),
                ),
            ),
        ),
    )
}

/// The size of a row.
#[verifier::opaque]
pub open spec fn row_size(row: dom::BranchModel) -> Option<u64> {
    either(
        attribute_size(row, 22, "data-size"@),
        either(
            attribute_size(row, 23, "data-bytes"@),
            either(
                first_size(row.parts[24], None),
                either(
                    first_size(row.parts[25], None),
                    either(
                        first_size(row.parts[26], None),
                        either(first_size(row.parts[27], None), size_of(row.element, None)),
                    ),
                ),
            ),
        ),
    )
}

/// The first text among elements that leaves something to show.
pub open spec fn first_label(elements: Seq<dom::ElementModel>) -> Option<Seq<char>>
    decreases elements.len(),
{
    if elements.len() == 0 {
        None
    } else {
        either(
            shown(elements[0].spaced_text(), HARD_MAX_CATEGORY_CHARACTERS as nat),
            first_label(elements.drop_first()),
        )
    }
}

/// Whether an anchor leads to a category.
pub open spec fn is_category_anchor(anchor: dom::ElementModel) -> bool {
    anchor.attr("href"@) matches Some(href) && (text::occurs("/browse/"@, text::lower(href))
        || text::occurs("/category/"@, text::lower(href)))
}

/// What the first anchor to a category is called.
pub open spec fn category_link(anchors: Seq<dom::ElementModel>) -> Option<Seq<char>>
    decreases anchors.len(),
{
    if anchors.len() == 0 {
        None
    } else if is_category_anchor(anchors[0]) {
        shown(anchors[0].spaced_text(), HARD_MAX_CATEGORY_CHARACTERS as nat)
    } else {
        category_link(anchors.drop_first())
    }
}

/// The category of a row.
#[verifier::opaque]
pub open spec fn row_category(row: dom::BranchModel) -> Option<Seq<char>> {
    either(
        first_label(row.parts[28]),
        either(
            first_label(row.parts[29]),
            either(first_label(row.parts[30]), category_link(row.parts[0])),
        ),
    )
}

/// The name of a row's result.
pub open spec fn row_name(row: dom::BranchModel, magnet: model::MagnetModel) -> Option<Seq<char>> {
    either(title_in(row.parts, 2, 10), magnet_name(magnet.href))
}

/// The result that a row is: it needs a magnet link, a name and the host of the
/// page; all else may be unknown.
pub open spec fn row_result(row: dom::BranchModel, page: weburl::UrlModel) -> Option<
    model::TorrentModel,
> {
    match first_magnet(discovery::bounded(row.parts[0], HARD_MAX_ROW_LINKS as int)) {
        None => None,
        Some(magnet) => match (row_name(row, magnet), page.host_text) {
            (Some(name), Some(host)) => Some(
                model::TorrentModel {
                    name,
                    magnet,
                    seeders: row_seeders(row),
                    leechers: row_leechers(row),
                    size_bytes: row_size(row),
                    category: row_category(row),
                    source_host: text::lower(host),
                },
            ),
            _ => None,
        },
    }
}

fn find_magnet(anchors: &Vec<Element>) -> (r: Option<MagnetUri>)
    ensures
        match r {
            Some(magnet) => first_magnet(
                discovery::bounded(dom::element_views(anchors@), HARD_MAX_ROW_LINKS as int),
            ) == Some(magnet@),
            None => first_magnet(
                discovery::bounded(dom::element_views(anchors@), HARD_MAX_ROW_LINKS as int),
            ) is None,
        },
{
    let ghost all = discovery::bounded(dom::element_views(anchors@), HARD_MAX_ROW_LINKS as int);
    let end = if HARD_MAX_ROW_LINKS < anchors.len() {
        HARD_MAX_ROW_LINKS
    } else {
        anchors.len()
    };
    let mut i: usize = 0;
    proof {
        assert(all.skip(0) =~= all);
    }
    while i < end
        invariant
            i <= end <= anchors@.len(),
            all == discovery::bounded(dom::element_views(anchors@), HARD_MAX_ROW_LINKS as int),
            all.len() == end,
            first_magnet(all.skip(i as int)) == first_magnet(all),
        decreases end - i,
    {
        proof {
            assert(all.skip(i as int)[0] == anchors@[i as int]@);
            assert(all.skip(i as int).drop_first() =~= all.skip(i as int + 1));
        }
        match anchors[i].attr("href") {
            None => {
                return None;
            },
            Some(href) => {
                if let Ok(magnet) = MagnetUri::from_str(href) {
                    return Some(magnet);
                }
            },
        }
        i = i + 1;
    }
    None
}

fn show(value: &str, limit: usize) -> (r: Option<String>)
    ensures
        text::opt_view(r) == shown(value@, limit as nat),
{
    let safe = sanitize_display_text(value, limit);
    if chars_of(safe.as_str()).len() > 0 {
        Some(safe)
    } else {
        None
    }
}

fn read_title(element: &Element) -> (r: Option<String>)
    ensures
        text::opt_view(r) == shown(title_of(element@), HARD_MAX_TITLE_CHARACTERS as nat),
{
    match element.attr("data-title") {
        Some(value) => show(value, HARD_MAX_TITLE_CHARACTERS),
        None => match element.attr("data-name") {
            Some(value) => show(value, HARD_MAX_TITLE_CHARACTERS),
            None => {
                let words = element.spaced_text();
                show(words.as_str(), HARD_MAX_TITLE_CHARACTERS)
            },
        },
    }
}

fn find_title(elements: &Vec<Element>) -> (r: Option<String>)
    ensures
        text::opt_view(r) == first_title(discovery::bounded(dom::element_views(elements@), 4)),
{
    let ghost all = discovery::bounded(dom::element_views(elements@), 4);
    let end: usize = if 4 < elements.len() {
        4
    } else {
        elements.len()
    };
    let mut i: usize = 0;
    proof {
        assert(all.skip(0) =~= all);
    }
    while i < end
        invariant
            i <= end <= elements@.len(),
            all == discovery::bounded(dom::element_views(elements@), 4),
            all.len() == end,
            first_title(all.skip(i as int)) == first_title(all),
        decreases end - i,
    {
        proof {
            assert(all.skip(i as int)[0] == elements@[i as int]@);
            assert(all.skip(i as int).drop_first() =~= all.skip(i as int + 1));
        }
        let found = read_title(&elements[i]);
        if found.is_some() {
            return found;
        }
        i = i + 1;
    }
    None
}

/// The display name that the decoded query pairs of a magnet link give.
pub fn display_name_in(pairs: &Vec<(String, String)>) -> (r: Option<String>)
    ensures
        text::opt_view(r) == display_name(weburl::pair_views(pairs@)),
{
    let ghost all = weburl::pair_views(pairs@);
    let mut i: usize = 0;
    proof {
        assert(all.skip(0) =~= all);
    }
    while i < pairs.len()
        invariant
            i <= pairs@.len(),
            all == weburl::pair_views(pairs@),
            first_value(all.skip(i as int), "dn"@) == first_value(all, "dn"@),
        decreases pairs@.len() - i,
    {
        proof {
            assert(all.skip(i as int)[0] == all[i as int]);
            assert(all.skip(i as int).drop_first() =~= all.skip(i as int + 1));
        }
        if same_text(pairs[i].0.as_str(), "dn") {
            return show(pairs[i].1.as_str(), HARD_MAX_TITLE_CHARACTERS);
        }
        i = i + 1;
    }
    None
}

fn name_of_magnet(magnet: &MagnetUri) -> (r: Option<String>)
    ensures
        text::opt_view(r) == magnet_name(magnet@.href),
{
    match Url::parse(magnet.as_str()) {
        Some(url) => match url.query_pairs() {
            Some(pairs) => display_name_in(&pairs),
            None => {
                proof {
                    assert(display_name(Seq::empty()) is None);
                }
                None
            },
        },
        None => None,
    }
}

/// The name of a row's result: the first title that is given, or else the
/// display name of the magnet link.
pub fn extract_name(row: &Branch, magnet: &MagnetUri) -> (r: Option<String>)
    requires
        row.parts@.len() == row_selectors().len(),
    ensures
        text::opt_view(r) == row_name(row@, magnet@),
{
    let mut k: usize = 2;
    while k < 10
        invariant
            2 <= k <= 10,
            row.parts@.len() == 31,
            title_in(row@.parts, k as int, 10) == title_in(row@.parts, 2, 10),
        decreases 10 - k,
    {
        proof {
            assert(row@.parts[k as int] == dom::element_views(row.parts@[k as int]@));
        }
        let found = find_title(&row.parts[k]);
        if found.is_some() {
            return found;
        }
        k = k + 1;
    }
    name_of_magnet(magnet)
}

fn read_count(element: &Element, attribute: Option<&str>) -> (r: Option<u64>)
    ensures
        r == count_of(
            element@,
            match attribute {
                Some(name) => Some(name@),
                None => None,
            },
        ),
{
    match attribute {
        Some(name) => match element.attr(name) {
            Some(value) => parse_count(value),
            None => None,
        },
        None => {
            let words = element.spaced_text();
            parse_count(words.as_str())
        },
    }
}

fn find_count(elements: &Vec<Element>, attribute: Option<&str>) -> (r: Option<u64>)
    ensures
        r == first_count(
            dom::element_views(elements@),
            match attribute {
                Some(name) => Some(name@),
                None => None,
            },
        ),
{
    let ghost all = dom::element_views(elements@);
    let ghost name: Option<Seq<char>> = match attribute {
        Some(name) => Some(name@),
        None => None,
    };
    let mut i: usize = 0;
    proof {
        assert(all.skip(0) =~= all);
    }
    while i < elements.len()
        invariant
            i <= elements@.len(),
            all == dom::element_views(elements@),
            name == (match attribute {
                Some(name) => Some(name@),
                None => None,
            }),
            first_count(all.skip(i as int), name) == first_count(all, name),
        decreases elements@.len() - i,
    {
        proof {
            assert(all.skip(i as int)[0] == elements@[i as int]@);
            assert(all.skip(i as int).drop_first() =~= all.skip(i as int + 1));
        }
        let found = read_count(&elements[i], attribute);
        if found.is_some() {
            return found;
        }
        i = i + 1;
    }
    None
}

/// The count that a row gives by an attribute, at the row or below it.
fn find_attribute_count(row: &Branch, part: usize, attribute: &str) -> (r: Option<u64>)
    requires
        part < row.parts@.len(),
    ensures
        r == attribute_count(row@, part as int, attribute@),
{
    let own = read_count(&row.element, Some(attribute));
    if own.is_some() {
        return own;
    }
    find_count(&row.parts[part], Some(attribute))
}

fn count_in_cell(cells: &Vec<Element>, back: usize) -> (r: Option<u64>)
    requires
        back > 0,
    ensures
        r == cell_count(dom::element_views(cells@), back as int),
{
    let size: usize = if 32 < cells.len() {
        32
    } else {
        cells.len()
    };
    if size >= back {
        let words = cells[size - back].spaced_text();
        parse_count(words.as_str())
    } else {
        None
    }
}

/// The seeders of a row.
pub fn extract_seeders(row: &Branch) -> (r: Option<u64>)
    requires
        row.parts@.len() == row_selectors().len(),
    ensures
        r == row_seeders(row@),
{
    proof {
        reveal(row_seeders);
    }
    let first = find_attribute_count(row, 10, "data-seeders");
    if first.is_some() {
        return first;
    }
    let second = find_attribute_count(row, 11, "data-seeds");
    if second.is_some() {
        return second;
    }
    let third = find_count(&row.parts[12], None);
    if third.is_some() {
        return third;
    }
    let fourth = find_count(&row.parts[13], None);
    if fourth.is_some() {
        return fourth;
    }
    let fifth = find_count(&row.parts[14], None);
    if fifth.is_some() {
        return fifth;
    }
    count_in_cell(&row.parts[1], 2)
}

/// The leechers of a row.
pub fn extract_leechers(row: &Branch) -> (r: Option<u64>)
    requires
        row.parts@.len() == row_selectors().len(),
    ensures
        r == row_leechers(row@),
{
    proof {
        reveal(row_leechers);
    }
    let first = find_attribute_count(row, 15, "data-leechers");
    if first.is_some() {
        return first;
    }
    let second = find_attribute_count(row, 16, "data-leeches");
    if second.is_some() {
        return second;
    }
    let third = find_attribute_count(row, 17, "data-peers");
    if third.is_some() {
        return third;
    }
    let fourth = find_count(&row.parts[18], None);
    if fourth.is_some() {
        return fourth;
    }
    let fifth = find_count(&row.parts[19], None);
    if fifth.is_some() {
        return fifth;
    }
    let sixth = find_count(&row.parts[20], None);
    if sixth.is_some() {
        return sixth;
    }
    let seventh = find_count(&row.parts[21], None);
    if seventh.is_some() {
        return seventh;
    }
    count_in_cell(&row.parts[1], 1)
}

fn read_size(element: &Element, attribute: Option<&str>) -> (r: Option<u64>)
    ensures
        r == size_of(
            element@,
            match attribute {
                Some(name) => Some(name@),
                None => None,
            },
        ),
{
    match attribute {
        Some(name) => match element.attr(name) {
            Some(value) => parse_size_value(value, true),
            None => None,
        },
        None => {
            let words = element.spaced_text();
            parse_size_value(words.as_str(), false)
        },
    }
}

fn find_size(elements: &Vec<Element>, attribute: Option<&str>) -> (r: Option<u64>)
    ensures
        r == first_size(
            dom::element_views(elements@),
            match attribute {
                Some(name) => Some(name@),
                None => None,
            },
        ),
{
    let ghost all = dom::element_views(elements@);
    let ghost name: Option<Seq<char>> = match attribute {
        Some(name) => Some(name@),
        None => None,
    };
    let mut i: usize = 0;
    proof {
        assert(all.skip(0) =~= all);
    }
    while i < elements.len()
        invariant
            i <= elements@.len(),
            all == dom::element_views(elements@),
            name == (match attribute {
                Some(name) => Some(name@),
                None => None,
            }),
            first_size(all.skip(i as int), name) == first_size(all, name),
        decreases elements@.len() - i,
    {
        proof {
            assert(all.skip(i as int)[0] == elements@[i as int]@);
            assert(all.skip(i as int).drop_first() =~= all.skip(i as int + 1));
        }
        let found = read_size(&elements[i], attribute);
        if found.is_some() {
            return found;
        }
        i = i + 1;
    }
    None
}

fn find_attribute_size(row: &Branch, part: usize, attribute: &str) -> (r: Option<u64>)
    requires
        part < row.parts@.len(),
    ensures
        r == attribute_size(row@, part as int, attribute@),
{
    let own = read_size(&row.element, Some(attribute));
    if own.is_some() {
        return own;
    }
    find_size(&row.parts[part], Some(attribute))
}

/// The size of a row.
pub fn extract_size(row: &Branch) -> (r: Option<u64>)
    requires
        row.parts@.len() == row_selectors().len(),
    ensures
        r == row_size(row@),
{
    proof {
        reveal(row_size);
    }
    let first = find_attribute_size(row, 22, "data-size");
    if first.is_some() {
        return first;
    }
    let second = find_attribute_size(row, 23, "data-bytes");
    if second.is_some() {
        return second;
    }
    let third = find_size(&row.parts[24], None);
    if third.is_some() {
        return third;
    }
    let fourth = find_size(&row.parts[25], None);
    if fourth.is_some() {
        return fourth;
    }
    let fifth = find_size(&row.parts[26], None);
    if fifth.is_some() {
        return fifth;
    }
    let sixth = find_size(&row.parts[27], None);
    if sixth.is_some() {
        return sixth;
    }
    read_size(&row.element, None)
}

fn find_label(elements: &Vec<Element>) -> (r: Option<String>)
    ensures
        text::opt_view(r) == first_label(dom::element_views(elements@)),
{
    let ghost all = dom::element_views(elements@);
    let mut i: usize = 0;
    proof {
        assert(all.skip(0) =~= all);
    }
    while i < elements.len()
        invariant
            i <= elements@.len(),
            all == dom::element_views(elements@),
            first_label(all.skip(i as int)) == first_label(all),
        decreases elements@.len() - i,
    {
        proof {
            assert(all.skip(i as int)[0] == elements@[i as int]@);
            assert(all.skip(i as int).drop_first() =~= all.skip(i as int + 1));
        }
        let words = elements[i].spaced_text();
        let found = show(words.as_str(), HARD_MAX_CATEGORY_CHARACTERS);
        if found.is_some() {
            return found;
        }
        i = i + 1;
    }
    None
}

fn leads_to_category(anchor: &Element) -> (r: bool)
    ensures
        r == is_category_anchor(anchor@),
{
    match anchor.attr("href") {
        Some(href) => {
            let lowered = lower_text(href);
            contains(&lowered, "/browse/") || contains(&lowered, "/category/")
        },
        None => false,
    }
}

fn find_category_link(anchors: &Vec<Element>) -> (r: Option<String>)
    ensures
        text::opt_view(r) == category_link(dom::element_views(anchors@)),
{
    let ghost all = dom::element_views(anchors@);
    let mut i: usize = 0;
    proof {
        assert(all.skip(0) =~= all);
    }
    while i < anchors.len()
        invariant
            i <= anchors@.len(),
            all == dom::element_views(anchors@),
            category_link(all.skip(i as int)) == category_link(all),
        decreases anchors@.len() - i,
    {
        proof {
            assert(all.skip(i as int)[0] == anchors@[i as int]@);
            assert(all.skip(i as int).drop_first() =~= all.skip(i as int + 1));
        }
        if leads_to_category(&anchors[i]) {
            let words = anchors[i].spaced_text();
            return show(words.as_str(), HARD_MAX_CATEGORY_CHARACTERS);
        }
        i = i + 1;
    }
    None
}

/// The category of a row.
pub fn extract_category(row: &Branch) -> (r: Option<String>)
    requires
        row.parts@.len() == row_selectors().len(),
    ensures
        text::opt_view(r) == row_category(row@),
{
    proof {
        reveal(row_category);
    }
    let first = find_label(&row.parts[28]);
    if first.is_some() {
        return first;
    }
    let second = find_label(&row.parts[29]);
    if second.is_some() {
        return second;
    }
    let third = find_label(&row.parts[30]);
    if third.is_some() {
        return third;
    }
    find_category_link(&row.parts[0])
}

/// The result that a row of the page at `page_url` is.
pub fn parse_result_row(row: &Branch, page_url: &Url) -> (r: Option<TorrentResult>)
    requires
        row.parts@.len() == row_selectors().len(),
    ensures
        match r {
            Some(result) => row_result(row@, page_url@) == Some(result@),
            None => row_result(row@, page_url@) is None,
        },
{
    let magnet = match find_magnet(&row.parts[0]) {
        Some(magnet) => magnet,
        None => {
            return None;
        },
    };
    let name = match extract_name(row, &magnet) {
        Some(name) => name,
        None => {
            return None;
        },
    };
    let seeders = extract_seeders(row);
    let leechers = extract_leechers(row);
    let size_bytes = extract_size(row);
    let category = extract_category(row);
    match page_url.host_str() {
        Some(host) => {
            let source_host = text_of(&lower_text(host));
            Some(
                TorrentResult {
                    name,
                    magnet,
                    seeders,
                    leechers,
                    size_bytes,
                    category,
                    source_host,
                },
            )
        },
        None => None,
    }
}

/// The results that rows are, in order.
pub open spec fn rows_results(rows: Seq<dom::BranchModel>, page: weburl::UrlModel) -> Seq<
    model::TorrentModel,
>
    decreases rows.len(),
{
    if rows.len() == 0 {
        Seq::empty()
    } else {
        let front = rows_results(rows.drop_last(), page);
        match row_result(rows.last(), page) {
            Some(result) => front.push(result),
            None => front,
        }
    }
}

/// The results that the first [`HARD_MAX_RESULT_ROWS`] rows are.
pub fn parse_rows(rows: &Vec<Branch>, page_url: &Url) -> (r: Vec<TorrentResult>)
    requires
        forall|i: int|
            0 <= i < rows@.len() ==> #[trigger] rows@[i].parts@.len() == row_selectors().len(),
    ensures
        model::result_views(r@) == rows_results(
            discovery::bounded(dom::branch_views(rows@), HARD_MAX_RESULT_ROWS as int),
            page_url@,
        ),
{
    let ghost all = discovery::bounded(dom::branch_views(rows@), HARD_MAX_RESULT_ROWS as int);
    let end = if HARD_MAX_RESULT_ROWS < rows.len() {
        HARD_MAX_RESULT_ROWS
    } else {
        rows.len()
    };
    let mut out: Vec<TorrentResult> = Vec::new();
    let mut i: usize = 0;
    proof {
        assert(all.take(0) =~= Seq::empty());
        assert(model::result_views(out@) =~= Seq::empty());
    }
    while i < end
        invariant
            i <= end <= rows@.len(),
            all == discovery::bounded(dom::branch_views(rows@), HARD_MAX_RESULT_ROWS as int),
            all.len() == end,
            forall|k: int|
                0 <= k < rows@.len() ==> #[trigger] rows@[k].parts@.len() == row_selectors().len(),
            model::result_views(out@) == rows_results(all.take(i as int), page_url@),
        decreases end - i,
    {
        proof {
            assert(all.take(i as int + 1).drop_last() =~= all.take(i as int));
            assert(all.take(i as int + 1).last() == rows@[i as int]@);
            assert(rows@[i as int].parts@.len() == row_selectors().len());
        }
        if let Some(result) = parse_result_row(&rows[i], page_url) {
            let ghost before = model::result_views(out@);
            out.push(result);
            proof {
                assert(model::result_views(out@) =~= before.push(result@));
            }
        }
        i = i + 1;
    }
    proof {
        assert(all.take(all.len() as int) =~= all);
    }
    out
}

/// The results of the rows that a selector finds.
pub open spec fn selected_results(document: browser::DocumentModel, css: Seq<char>) -> Seq<
    model::TorrentModel,
> {
    rows_results(
        discovery::bounded(
            dom::selected_within(document.html, css, row_selectors()),
            HARD_MAX_RESULT_ROWS as int,
        ),
        document.url,
    )
}

/// The rows of the known page shapes, most wanted first.
pub open spec fn known_rows() -> Seq<Seq<char>> {
    seq![
        "table#searchResult tr"@,
        "table#search-result tr"@,
        "ol#torrents > li"@,
        "ul.search-results > li"@,
        "[data-torrent-row]"@,
    ]
}

/// The results of the first selector that finds any, or else of anything that
/// may be a row.
pub open spec fn first_results(document: browser::DocumentModel, selectors: Seq<Seq<char>>) -> Seq<
    model::TorrentModel,
>
    decreases selectors.len(),
{
    if selectors.len() == 0 {
        selected_results(document, "tr, li, article, div.result, div.torrent"@)
    } else {
        let found = selected_results(document, selectors[0]);
        if found.len() > 0 {
            found
        } else {
            first_results(document, selectors.drop_first())
        }
    }
}

/// The results of a rendered page.
pub open spec fn page_results(document: browser::DocumentModel) -> Seq<model::TorrentModel> {
    normalized_results(first_results(document, known_rows()))
}

fn parse_selected_rows(document: &RenderedDocument, css: &str) -> (r: Vec<TorrentResult>)
    ensures
        model::result_views(r@) == selected_results(document@, css@),
{
    let inner = [
        "a[href]",
        "td",
        "a.detLink",
        ".detName a",
        ".item-name",
        ".name",
        "[data-title]",
        "[data-name]",
        "a[href*='/torrent/']",
        "a[href*='/description/']",
        "[data-seeders]",
        "[data-seeds]",
        ".seeders",
        ".seeds",
        ".item-seed",
        "[data-leechers]",
        "[data-leeches]",
        "[data-peers]",
        ".leechers",
        ".leeches",
        ".item-leech",
        ".peers",
        "[data-size]",
        "[data-bytes]",
        ".size",
        ".item-size",
        ".detDesc",
        ".description",
        ".category",
        ".item-type",
        ".type",
    ];
    proof {
        assert(dom::selector_views(inner@) =~= row_selectors());
    }
    let rows = select_within(document.html.as_str(), css, &inner, HARD_MAX_RESULT_ROWS);
    proof {
        discovery::bounded_again(
            dom::selected_within(document@.html, css@, row_selectors()),
            HARD_MAX_RESULT_ROWS as int,
        );
    }
    parse_rows(&rows, &document.url)
}

/// Reads the results off a rendered page.
pub fn parse_rendered_results(document: &RenderedDocument) -> (r: Vec<TorrentResult>)
    ensures
        model::result_views(r@) == page_results(document@),
{
    let shapes = [
        "table#searchResult tr",
        "table#search-result tr",
        "ol#torrents > li",
        "ul.search-results > li",
        "[data-torrent-row]",
    ];
    let ghost all = known_rows();
    proof {
        assert(dom::selector_views(shapes@) =~= all);
        assert(all.skip(0) =~= all);
    }
    let mut i: usize = 0;
    while i < 5
        invariant
            i <= 5,
            shapes@.len() == 5,
            all == known_rows(),
            dom::selector_views(shapes@) == all,
            first_results(document@, all.skip(i as int)) == first_results(document@, all),
        decreases 5 - i,
    {
        proof {
            assert(all.skip(i as int)[0] == shapes@[i as int]@);
            assert(all.skip(i as int).drop_first() =~= all.skip(i as int + 1));
        }
        let rows = parse_selected_rows(document, shapes[i]);
        if rows.len() > 0 {
            return normalize_results(rows);
        }
        i = i + 1;
    }
    proof {
        assert(all.skip(5) =~= Seq::empty());
    }
    let rows = parse_selected_rows(document, "tr, li, article, div.result, div.torrent");
    normalize_results(rows)
}

// ------------------------------------------------------------------ page state

/// What a page shows after a query was sent.
#[derive(Debug, Clone, Copy, PartialEq, Eq, Structural)]
pub enum ResultState {
    /// Nothing yet.
    Pending,
    /// Result rows.
    Rows,
    /// That nothing was found.
    Empty,
}

/// What pages say when nothing was found.
pub open spec fn empty_marks() -> Seq<Seq<char>> {
    seq![
        "no results found"@,
        "no hits. try adding an asterisk"@,
        "nothing found"@,
        "0 results"@,
    ]
}

/// What shows that a page has results.
pub open spec fn result_marks() -> Seq<Seq<char>> {
    seq![
        "table#searchResult"@,
        "table#search-result"@,
        "ol#torrents"@,
        "ul.search-results"@,
        "[data-torrent-row]"@,
        "a[href^='magnet:']"@,
    ]
}

/// The state of a page, given whether any mark of results was found.
pub open spec fn state_of(html: Seq<char>, marked: bool) -> ResultState {
    if discovery::any_occurs(empty_marks(), discovery::marked_text(html)) {
        ResultState::Empty
    } else if marked {
        ResultState::Rows
    } else {
        ResultState::Pending
    }
}

/// Whether any of the selectors finds anything.
pub open spec fn any_selected(html: Seq<char>, selectors: Seq<Seq<char>>) -> bool {
    exists|i: int|
        0 <= i < selectors.len() && dom::selected(html, #[trigger] selectors[i]).len() > 0
}

/// The state of a rendered page.
pub open spec fn result_state(document: browser::DocumentModel) -> ResultState {
    state_of(document.html, any_selected(document.html, result_marks()))
}

/// The state of a page, given whether any mark of results was found.
pub fn judge_result_state(html: &str, marked: bool) -> (r: ResultState)
    ensures
        r == state_of(html@, marked),
{
    let lowered = lowered_front(html);
    let marks = [
        "no results found",
        "no hits. try adding an asterisk",
        "nothing found",
        "0 results",
    ];
    proof {
        assert(dom::selector_views(marks@) =~= empty_marks());
    }
    if contains_any(&lowered, &marks) {
        ResultState::Empty
    } else if marked {
        ResultState::Rows
    } else {
        ResultState::Pending
    }
}

/// Tells what state a rendered page is in.
pub fn recognize_result_state(document: &RenderedDocument) -> (r: ResultState)
    ensures
        r == result_state(document@),
{
    let html = document.html.as_str();
    let marks = [
        "table#searchResult",
        "table#search-result",
        "ol#torrents",
        "ul.search-results",
        "[data-torrent-row]",
        "a[href^='magnet:']",
    ];
    let ghost all = result_marks();
    proof {
        assert(dom::selector_views(marks@) =~= all);
    }
    let mut marked = false;
    let mut i: usize = 0;
    while i < 6
        invariant
            i <= 6,
            marks@.len() == 6,
            html@ == document@.html,
            dom::selector_views(marks@) == all,
            marked == exists|k: int|
                0 <= k < i && dom::selected(html@, #[trigger] all[k]).len() > 0,
        decreases 6 - i,
    {
        let found = select_first(html, marks[i], 1);
        proof {
            assert(all[i as int] == marks@[i as int]@);
            assert(dom::element_views(found@).len() == found@.len());
            assert(dom::selected(html@, all[i as int]).len() > 0 <==> found@.len() > 0);
        }
        if found.len() > 0 {
            marked = true;
        }
        i = i + 1;
    }
    judge_result_state(html, marked)
}

// --------------------------------------------------------------- laws of pages

proof fn shown_is_bounded(value: Seq<char>, limit: nat)
    ensures
        shown(value, limit) matches Some(words) ==> 0 < words.len() <= limit && forall|i: int|
            0 <= i < words.len() ==> !text::is_control(#[trigger] words[i])
                && !text::is_bidi_mark(words[i]),
{
    model::sanitized_is_inert(value, limit);
}

proof fn title_is_shown(elements: Seq<dom::ElementModel>)
    ensures
        first_title(elements) matches Some(words) ==> exists|value: Seq<char>|
            shown(value, HARD_MAX_TITLE_CHARACTERS as nat) == Some(words),
    decreases elements.len(),
{
    if elements.len() > 0 {
        title_is_shown(elements.drop_first());
    }
}

proof fn titles_are_shown(parts: Seq<Seq<dom::ElementModel>>, from: int, to: int)
    ensures
        title_in(parts, from, to) matches Some(words) ==> exists|value: Seq<char>|
            shown(value, HARD_MAX_TITLE_CHARACTERS as nat) == Some(words),
    decreases to - from,
{
    if from < to {
        title_is_shown(discovery::bounded(parts[from], 4));
        titles_are_shown(parts, from + 1, to);
    }
}

/// Whatever a page holds, the name of a result is not empty, has at most
/// [`HARD_MAX_TITLE_CHARACTERS`] characters, and no terminal control or
/// bidirectional mark.
pub proof fn names_are_inert(row: dom::BranchModel, page: weburl::UrlModel)
    ensures
        row_result(row, page) matches Some(result) ==> {
            &&& 0 < result.name.len() <= HARD_MAX_TITLE_CHARACTERS
            &&& forall|i: int|
                0 <= i < result.name.len() ==> !text::is_control(#[trigger] result.name[i])
                    && !text::is_bidi_mark(result.name[i])
        },
{
    if let Some(result) = row_result(row, page) {
        titles_are_shown(row.parts, 2, 10);
        let value = choose|value: Seq<char>|
            shown(value, HARD_MAX_TITLE_CHARACTERS as nat) == Some(result.name);
        shown_is_bounded(value, HARD_MAX_TITLE_CHARACTERS as nat);
    }
}

proof fn magnet_is_valid(anchors: Seq<dom::ElementModel>)
    ensures
        first_magnet(anchors) matches Some(magnet) ==> exists|href: Seq<char>|
            model::magnet_outcome(href) == Ok::<model::MagnetModel, model::MagnetError>(magnet),
    decreases anchors.len(),
{
    if anchors.len() > 0 {
        magnet_is_valid(anchors.drop_first());
    }
}

/// A row gives a result only with a magnet link that names a BitTorrent v1
/// identity.
pub proof fn results_have_an_identity(row: dom::BranchModel, page: weburl::UrlModel)
    ensures
        row_result(row, page) matches Some(result) ==> exists|href: Seq<char>|
            model::magnet_outcome(href) == Ok::<model::MagnetModel, model::MagnetError>(
                result.magnet,
            ),
{
    magnet_is_valid(discovery::bounded(row.parts[0], HARD_MAX_ROW_LINKS as int));
}

proof fn rows_bound_results(rows: Seq<dom::BranchModel>, page: weburl::UrlModel)
    ensures
        rows_results(rows, page).len() <= rows.len(),
    decreases rows.len(),
{
    if rows.len() > 0 {
        rows_bound_results(rows.drop_last(), page);
    }
}

proof fn first_results_bounded(document: browser::DocumentModel, selectors: Seq<Seq<char>>)
    ensures
        first_results(document, selectors).len() <= HARD_MAX_RESULT_ROWS,
    decreases selectors.len(),
{
    let css = if selectors.len() == 0 {
        "tr, li, article, div.result, div.torrent"@
    } else {
        selectors[0]
    };
    rows_bound_results(
        discovery::bounded(
            dom::selected_within(document.html, css, row_selectors()),
            HARD_MAX_RESULT_ROWS as int,
        ),
        document.url,
    );
    if selectors.len() > 0 {
        first_results_bounded(document, selectors.drop_first());
    }
}

/// However many rows a page holds, it gives at most [`HARD_MAX_RESULT_ROWS`]
/// results, one for each torrent, and in order.
pub proof fn page_results_are_bounded(document: browser::DocumentModel)
    ensures
        page_results(document).len() <= HARD_MAX_RESULT_ROWS,
        discovery::all_distinct(hashes(page_results(document))),
        ranking::in_order(page_results(document), result_after()),
{
    first_results_bounded(document, known_rows());
    normalized_results_are_ranked(first_results(document, known_rows()));
}

} // verus!
