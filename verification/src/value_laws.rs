//! Laws of values that are read from text: counts, sizes, shown words, identities.

use crate::dom;
use crate::model;
use crate::plain;
use crate::search;
use crate::text;
use crate::text::CharClass;
use crate::weburl;
use vstd::prelude::*;

verus! {

// --------------------------------------------------------------------- counts

/// A character that may stand between the digits of a count.
pub open spec fn groups_digits(c: char) -> bool {
    c == ',' || c == '_' || c == ' ' || c == '\u{a0}'
}

/// A decimal digit.
pub open spec fn is_decimal(c: char) -> bool {
    '0' <= c && c <= '9'
}

proof fn ungrouping_splits(front: Seq<char>, back: Seq<char>)
    ensures
        search::ungrouped(front + back) == search::ungrouped(front) + search::ungrouped(back),
    decreases back.len(),
{
    if back.len() == 0 {
        assert(front + back =~= front);
        assert(search::ungrouped(front) + search::ungrouped(back) =~= search::ungrouped(front));
    } else {
        ungrouping_splits(front, back.drop_last());
        assert((front + back).drop_last() =~= front + back.drop_last());
        assert((front + back).last() == back.last());
        assert(search::ungrouped(front + back) =~= search::ungrouped(front) + search::ungrouped(
            back,
        ));
    }
}

/// A character between the digits of a count changes nothing, wherever it stands.
pub proof fn grouping_is_ignored(front: Seq<char>, mark: char, back: Seq<char>)
    requires
        groups_digits(mark),
    ensures
        search::count_in(front + seq![mark] + back) == search::count_in(front + back),
{
    ungrouping_splits(front + seq![mark], back);
    ungrouping_splits(front, seq![mark]);
    ungrouping_splits(front, back);
    assert(seq![mark].drop_last() =~= Seq::empty());
    assert(search::ungrouped(Seq::empty()) == Seq::<char>::empty());
    assert(search::ungrouped(seq![mark]) =~= Seq::empty());
    assert(search::ungrouped(front) + Seq::<char>::empty() =~= search::ungrouped(front));
}

/// Any other character makes a text no count.
pub proof fn other_characters_are_no_count(value: Seq<char>, at: int)
    requires
        0 <= at < value.len(),
        !groups_digits(value[at]),
        !is_decimal(value[at]),
    ensures
        search::count_in(value) is None,
{
    let front = value.take(at);
    let back = value.skip(at + 1);
    let here = seq![value[at]];
    assert(value =~= front + here + back);
    ungrouping_splits(front + here, back);
    ungrouping_splits(front, here);
    assert(here.drop_last() =~= Seq::empty());
    assert(search::ungrouped(Seq::empty()) == Seq::<char>::empty());
    assert(search::ungrouped(here) =~= here);
    let kept = search::ungrouped(value);
    let k = search::ungrouped(front).len() as int;
    assert(kept[k] == value[at]);
    assert(!text::is_digit(kept[k]));
}

/// A text without a digit is no count.
pub proof fn counts_have_digits(value: Seq<char>)
    requires
        forall|i: int| 0 <= i < value.len() ==> !is_decimal(#[trigger] value[i]),
    ensures
        search::count_in(value) is None,
    decreases value.len(),
{
    if exists|i: int| 0 <= i < value.len() && !groups_digits(#[trigger] value[i]) {
        let i = choose|i: int| 0 <= i < value.len() && !groups_digits(#[trigger] value[i]);
        other_characters_are_no_count(value, i);
    } else if value.len() > 0 {
        let front = value.drop_last();
        assert(value =~= front + seq![value.last()] + Seq::empty());
        assert(groups_digits(value[value.len() - 1]));
        assert forall|i: int| 0 <= i < front.len() implies !is_decimal(#[trigger] front[i]) by {
            assert(front[i] == value[i]);
        }
        grouping_is_ignored(front, value.last(), Seq::empty());
        assert(front + Seq::<char>::empty() =~= front);
        counts_have_digits(front);
    }
}

/// A number in decimal is read as itself where it fits in 64 bits, and is no count
/// where it does not.
pub proof fn numbers_are_read(n: nat)
    ensures
        search::count_in(text::decimal_text(n)) == (if n <= 0xffff_ffff_ffff_ffff {
            Some(n as u64)
        } else {
            None
        }),
{
    let digits = text::decimal_text(n);
    text::decimal_text_round_trips(n);
    digits_are_kept(digits);
}

proof fn digits_are_kept(value: Seq<char>)
    requires
        forall|i: int| 0 <= i < value.len() ==> is_decimal(#[trigger] value[i]),
    ensures
        search::ungrouped(value) == value,
    decreases value.len(),
{
    if value.len() > 0 {
        assert(is_decimal(value[value.len() - 1]));
        digits_are_kept(value.drop_last());
        assert(value.drop_last().push(value.last()) =~= value);
    } else {
        assert(search::ungrouped(value) =~= value);
    }
}

/// A zero in front changes nothing.
pub proof fn leading_zeros_are_ignored(value: Seq<char>)
    requires
        search::count_in(value) is Some,
    ensures
        search::count_in(seq!['0'] + value) == search::count_in(value),
{
    let kept = search::ungrouped(value);
    ungrouping_splits(seq!['0'], value);
    digits_are_kept(seq!['0']);
    zero_in_front(kept);
    let both = seq!['0'] + kept;
    assert forall|i: int| 0 <= i < both.len() implies text::is_digit(#[trigger] both[i]) by {
        if i > 0 {
            assert(both[i] == kept[i - 1]);
        }
    }
}

proof fn zero_in_front(digits: Seq<char>)
    ensures
        text::decimal_value(seq!['0'] + digits) == text::decimal_value(digits),
    decreases digits.len(),
{
    let both = seq!['0'] + digits;
    if digits.len() == 0 {
        assert(both.drop_last() =~= Seq::empty());
        assert(text::decimal_value(both.drop_last()) == 0);
        assert(both.last() == '0');
    } else {
        assert(both.drop_last() =~= seq!['0'] + digits.drop_last());
        zero_in_front(digits.drop_last());
    }
}

/// A digit more at the end is ten times the count and the digit.
pub proof fn digits_count_by_tens(value: Seq<char>, digit: char)
    requires
        is_decimal(digit),
        search::count_in(value) is Some,
        10 * search::count_in(value)->0 + (digit as int - '0' as int) <= 0xffff_ffff_ffff_ffff,
    ensures
        search::count_in(value.push(digit)) == Some(
            (10 * search::count_in(value)->0 + (digit as int - '0' as int)) as u64,
        ),
{
    let kept = search::ungrouped(value);
    assert(value.push(digit).drop_last() =~= value);
    assert(search::ungrouped(value.push(digit)) == kept.push(digit));
    assert(kept.push(digit).drop_last() =~= kept);
}

// ---------------------------------------------------------------------- sizes

proof fn uncommaing_splits(front: Seq<char>, back: Seq<char>)
    ensures
        search::without_commas(front + back) == search::without_commas(front)
            + search::without_commas(back),
    decreases back.len(),
{
    if back.len() == 0 {
        assert(front + back =~= front);
        assert(search::without_commas(front) + search::without_commas(back)
            =~= search::without_commas(front));
    } else {
        uncommaing_splits(front, back.drop_last());
        assert((front + back).drop_last() =~= front + back.drop_last());
        assert((front + back).last() == back.last());
        assert(search::without_commas(front + back) =~= search::without_commas(front)
            + search::without_commas(back));
    }
}

/// A comma in a size changes nothing, wherever it stands.
pub proof fn commas_in_sizes_are_ignored(front: Seq<char>, back: Seq<char>, plain: bool)
    ensures
        search::size_in(front + seq![','] + back, plain) == search::size_in(front + back, plain),
{
    uncommaing_splits(front + seq![','], back);
    uncommaing_splits(front, seq![',']);
    uncommaing_splits(front, back);
    assert(seq![','].drop_last() =~= Seq::empty());
    assert(search::without_commas(Seq::empty()) == Seq::<char>::empty());
    assert(search::without_commas(seq![',']) =~= Seq::empty());
    assert(search::without_commas(front) + Seq::<char>::empty() =~= search::without_commas(front));
}

// ---------------------------------------------------------------- shown words

/// A character that steers a terminal or the direction of writing.
pub open spec fn steers(c: char) -> bool {
    ||| c as int <= 0x1f
    ||| 0x7f <= c as int <= 0x9f
    ||| c as int == 0x61c
    ||| 0x200e <= c as int <= 0x200f
    ||| 0x202a <= c as int <= 0x202e
    ||| 0x2066 <= c as int <= 0x2069
}

/// A space of any width.
pub open spec fn is_space(c: char) -> bool {
    ||| c as int == 0x20
    ||| c as int == 0xa0
    ||| c as int == 0x1680
    ||| 0x2000 <= c as int <= 0x200a
    ||| 0x2028 <= c as int <= 0x2029
    ||| c as int == 0x202f
    ||| c as int == 0x205f
    ||| c as int == 0x3000
}

proof fn inert_splits(front: Seq<char>, back: Seq<char>)
    ensures
        model::inert(front + back) == model::inert(front) + model::inert(back),
    decreases back.len(),
{
    if back.len() == 0 {
        assert(front + back =~= front);
        assert(model::inert(front) + model::inert(back) =~= model::inert(front));
    } else {
        inert_splits(front, back.drop_last());
        assert((front + back).drop_last() =~= front + back.drop_last());
        assert((front + back).last() == back.last());
        assert(model::inert(front + back) =~= model::inert(front) + model::inert(back));
    }
}

/// A steering character is left out of what is shown, wherever it stands.
pub proof fn steering_characters_vanish(
    front: Seq<char>,
    mark: char,
    back: Seq<char>,
    limit: nat,
)
    requires
        steers(mark),
    ensures
        model::sanitized(front + seq![mark] + back, limit) == model::sanitized(
            front + back,
            limit,
        ),
        model::inert(front + seq![mark] + back) == model::inert(front + back),
{
    inert_splits(front + seq![mark], back);
    inert_splits(front, seq![mark]);
    inert_splits(front, back);
    assert(seq![mark].drop_last() =~= Seq::empty());
    assert(model::inert(Seq::empty()) == Seq::<char>::empty());
    assert(model::inert(seq![mark]) =~= Seq::empty());
    assert(model::inert(front) + Seq::<char>::empty() =~= model::inert(front));
}

proof fn plain_words_are_inert(value: Seq<char>)
    requires
        forall|i: int| 0 <= i < value.len() ==> !steers(#[trigger] value[i]),
    ensures
        model::inert(value) == value,
    decreases value.len(),
{
    if value.len() > 0 {
        assert(!steers(value[value.len() - 1]));
        plain_words_are_inert(value.drop_last());
        assert(value.drop_last().push(value.last()) =~= value);
    } else {
        assert(model::inert(value) =~= value);
    }
}

/// Words without steering characters and without spaces around them are shown as
/// they are, up to the limit.
pub proof fn plain_words_are_shown(value: Seq<char>, limit: nat)
    requires
        forall|i: int| 0 <= i < value.len() ==> !steers(#[trigger] value[i]),
        value.len() > 0 ==> !is_space(value[0]) && !is_space(value[value.len() - 1]),
    ensures
        value.len() <= limit ==> model::sanitized(value, limit) == value,
        value.len() > limit ==> model::sanitized(value, limit) == value.take(limit as int),
{
    plain_words_are_inert(value);
    if value.len() > 0 {
        assert(!steers(value[0]) && !steers(value[value.len() - 1]));
        assert(text::strip_start(value, CharClass::White) =~= value);
    } else {
        assert(text::strip_start(value, CharClass::White) =~= value);
    }
}

/// A space in front of the words or behind them is not shown.
pub proof fn spaces_around_vanish(value: Seq<char>, space: char, limit: nat)
    requires
        is_space(space),
    ensures
        model::sanitized(seq![space] + value, limit) == model::sanitized(value, limit),
        model::sanitized(value.push(space), limit) == model::sanitized(value, limit),
{
    let clean = model::inert(value);
    inert_splits(seq![space], value);
    assert(seq![space].drop_last() =~= Seq::empty());
    assert(model::inert(Seq::empty()) == Seq::<char>::empty());
    assert(model::inert(seq![space]) =~= seq![space]);
    let led = seq![space] + clean;
    assert(led.drop_first() =~= clean);
    run_bounded(clean);
    assert(text::run(led, CharClass::White) == 1 + text::run(clean, CharClass::White));
    assert(led.skip(text::run(led, CharClass::White) as int) =~= clean.skip(
        text::run(clean, CharClass::White) as int,
    ));
    assert(value.push(space).drop_last() =~= value);
    let trailed = clean.push(space);
    assert(model::inert(value.push(space)) == trailed);
    trailing_white_vanishes(clean, space);
}

proof fn run_bounded(value: Seq<char>)
    ensures
        text::run(value, CharClass::White) <= value.len(),
{
    text::run_is_maximal(value, CharClass::White);
}

proof fn runs_go_on(value: Seq<char>, space: char)
    requires
        text::is_white(space),
    ensures
        text::run(value.push(space), CharClass::White) == if text::run(value, CharClass::White)
            == value.len() {
            value.len() + 1
        } else {
            text::run(value, CharClass::White)
        },
    decreases value.len(),
{
    let more = value.push(space);
    if value.len() == 0 {
        assert(more.drop_first() =~= Seq::empty());
        assert(text::run(more.drop_first(), CharClass::White) == 0);
    } else {
        assert(more.drop_first() =~= value.drop_first().push(space));
        runs_go_on(value.drop_first(), space);
        run_bounded(value.drop_first());
    }
}

proof fn trailing_white_vanishes(value: Seq<char>, space: char)
    requires
        text::is_white(space),
    ensures
        text::trimmed(value.push(space), CharClass::White) == text::trimmed(
            value,
            CharClass::White,
        ),
{
    runs_go_on(value, space);
    run_bounded(value);
    let size = text::run(value, CharClass::White) as int;
    let more = value.push(space);
    if size == value.len() {
        assert(text::strip_start(more, CharClass::White) =~= Seq::empty());
        assert(text::strip_start(value, CharClass::White) =~= Seq::empty());
    } else {
        let rest = text::strip_start(value, CharClass::White);
        assert(text::strip_start(more, CharClass::White) =~= rest.push(space));
        assert(rest.push(space).drop_last() =~= rest);
    }
}

// ------------------------------------------------------------------ page texts

/// The text of an element is its text nodes with one space between neighbours.
pub proof fn texts_are_spaced(element: dom::ElementModel, last: Seq<char>)
    requires
        0 < element.text.len() < 16_384,
    ensures
        (dom::ElementModel { text: seq![last], ..element }).spaced_text() == last,
        (dom::ElementModel { text: element.text.push(last), ..element }).spaced_text()
            == element.spaced_text() + seq![' '] + last,
{
    let nodes = element.text;
    let more = nodes.push(last);
    assert(more.take(more.len() as int) =~= more);
    assert(nodes.take(nodes.len() as int) =~= nodes);
    assert(more.drop_last() =~= nodes);
    assert(seq![last].take(1) =~= seq![last]);
    reveal_strlit(" ");
    assert(" "@ =~= seq![' ']);
}

proof fn solid_words_run(word: Seq<char>, tail: Seq<char>)
    requires
        forall|i: int| 0 <= i < word.len() ==> !text::is_white(#[trigger] word[i]),
        tail.len() == 0 || text::is_white(tail[0]),
    ensures
        text::run(word + tail, CharClass::Solid) == word.len(),
    decreases word.len(),
{
    let all = word + tail;
    if word.len() > 0 {
        let rest = word.drop_first();
        assert forall|i: int| 0 <= i < rest.len() implies !text::is_white(#[trigger] rest[i]) by {
            assert(rest[i] == word[i + 1]);
        }
        solid_words_run(rest, tail);
        assert(all.drop_first() =~= rest + tail);
        assert(all[0] == word[0]);
    } else {
        assert(all =~= tail);
    }
}

/// White space parts words: what stands before it is a word, what stands behind it
/// is split on, and white space in front does not count.
pub proof fn words_are_parted_by_white_space(word: Seq<char>, space: char, rest: Seq<char>)
    requires
        word.len() > 0,
        forall|i: int| 0 <= i < word.len() ==> !text::is_white(#[trigger] word[i]),
        text::is_white(space),
    ensures
        text::words(Seq::empty()).len() == 0,
        text::words(seq![space] + rest) == text::words(rest),
        text::words(word + seq![space] + rest) == seq![word] + text::words(rest),
        text::words(word) == seq![word],
{
    let none = Seq::<char>::empty();
    assert(text::strip_start(none, CharClass::White) =~= none);
    assert(text::words(none).len() == 0);
    let tail = seq![space] + rest;
    assert(tail.drop_first() =~= rest);
    assert(text::run(tail, CharClass::White) == 1 + text::run(rest, CharClass::White));
    text::run_is_maximal(rest, CharClass::White);
    let start = text::strip_start(rest, CharClass::White);
    assert(text::strip_start(tail, CharClass::White) =~= start);
    text::run_is_maximal(start, CharClass::Solid);
    assert(text::words(tail) == text::words(rest));
    let all = word + tail;
    assert(word + seq![space] + rest =~= all);
    assert(all[0] == word[0]);
    assert(!text::is_white(word[0]));
    solid_words_run(word, tail);
    assert(text::strip_start(all, CharClass::White) =~= all);
    assert(all.take(word.len() as int) =~= word);
    assert(all.skip(word.len() as int) =~= tail);
    solid_words_run(word, none);
    assert(word + none =~= word);
    assert(text::strip_start(word, CharClass::White) =~= word);
    assert(word.take(word.len() as int) =~= word);
    assert(word.skip(word.len() as int) =~= none);
    assert(seq![word] + text::words(none) =~= seq![word]);
}

/// The text of a link is that of its first eight text nodes, put together as they
/// are; what stands behind them does not count.
pub proof fn short_texts_have_eight_parts(element: dom::ElementModel, last: Seq<char>)
    ensures
        element.text.len() == 0 ==> element.brief_text().len() == 0,
        ({
            let more = dom::ElementModel { text: element.text.push(last), ..element };
            &&& element.text.len() < 8 ==> more.brief_text() == element.brief_text() + last
            &&& element.text.len() >= 8 ==> more.brief_text() == element.brief_text()
        }),
{
    let more = dom::ElementModel { text: element.text.push(last), ..element };
    if element.text.len() < 8 {
        let all = more.text;
        assert(more.text.take(all.len() as int) =~= all);
        assert(element.text.take(element.text.len() as int) =~= element.text);
        assert(all.drop_last() =~= element.text);
    } else {
        assert(more.text.take(8) =~= element.text.take(8));
    }
}

/// The first attribute with a name gives its value, whatever stands around it.
pub proof fn attributes_are_found(element: dom::ElementModel, at: int)
    requires
        0 <= at < element.attributes.len(),
        forall|i: int|
            0 <= i < at ==> (#[trigger] element.attributes[i]).0 != element.attributes[at].0,
    ensures
        element.attr(element.attributes[at].0) == element.attributes[at].1,
{
    attribute_is_found(element.attributes, at);
}

proof fn attribute_is_found(attributes: Seq<(Seq<char>, Option<Seq<char>>)>, at: int)
    requires
        0 <= at < attributes.len(),
        forall|i: int| 0 <= i < at ==> (#[trigger] attributes[i]).0 != attributes[at].0,
    ensures
        dom::attribute(attributes, attributes[at].0) == attributes[at].1,
    decreases at,
{
    if at > 0 {
        let rest = attributes.drop_first();
        assert(attributes[0].0 != attributes[at].0);
        assert(rest[at - 1] == attributes[at]);
        assert forall|i: int| 0 <= i < at - 1 implies (#[trigger] rest[i]).0 != rest[at - 1].0 by {
            assert(rest[i] == attributes[i + 1]);
        }
        attribute_is_found(rest, at - 1);
    }
}

// ------------------------------------------------------------------ identities

/// A hexadecimal digit in either case.
pub open spec fn is_hexadecimal(c: char) -> bool {
    ('0' <= c && c <= '9') || ('a' <= c && c <= 'f') || ('A' <= c && c <= 'F')
}

proof fn digits_are_written_small(bytes: Seq<u8>, n: nat)
    requires
        model::hex_number(bytes) == Some(n),
    ensures
        model::hex_text(n, bytes.len()).len() == bytes.len(),
        forall|i: int|
            0 <= i < bytes.len() ==> plain::same_letter(
                #[trigger] model::hex_text(n, bytes.len())[i],
                bytes[i] as char,
            ) && !('A' <= model::hex_text(n, bytes.len())[i] && model::hex_text(n, bytes.len())[i]
                <= 'Z'),
    decreases bytes.len(),
{
    if bytes.len() > 0 {
        let front = model::hex_number(bytes.drop_last())->0;
        let digit = model::hex_digit(bytes.last())->0;
        assert(n / 16 == front && n % 16 == digit) by (nonlinear_arith)
            requires
                n == 16 * front + digit,
                0 <= digit < 16,
        ;
        digits_are_written_small(bytes.drop_last(), front);
        let written = model::hex_text(n, bytes.len());
        let before = model::hex_text(front, (bytes.len() - 1) as nat);
        assert(written == before.push(model::hex_char(digit as nat)));
        assert forall|i: int| 0 <= i < bytes.len() implies plain::same_letter(
            #[trigger] written[i],
            bytes[i] as char,
        ) && !('A' <= written[i] && written[i] <= 'Z') by {
            if i < before.len() {
                assert(written[i] == before[i]);
                assert(bytes.drop_last()[i] == bytes[i]);
            }
        }
    }
}

/// A hash of forty hexadecimal digits is accepted, and its canonical text is the
/// same digits in small letters.
pub proof fn hexadecimal_hashes_keep_their_digits(value: Seq<char>)
    requires
        value.len() == 40,
        forall|i: int| 0 <= i < 40 ==> is_hexadecimal(#[trigger] value[i]),
    ensures
        model::hash_number(value) is Some,
        plain::same_word(model::hash_text(model::hash_number(value)->0), value),
        plain::is_small(model::hash_text(model::hash_number(value)->0)),
{
    assert(vstd::utf8::is_ascii_chars(value)) by {
        assert forall|i: int| 0 <= i < value.len() implies '\0' <= #[trigger] value[i] <= '\u{7f}' by {
            assert(is_hexadecimal(value[i]));
        }
    }
    vstd::utf8::is_ascii_chars_encode_utf8(value);
    let bytes = vstd::utf8::encode_utf8(value);
    assert forall|i: int| 0 <= i < bytes.len() implies model::hex_digit(#[trigger] bytes[i])
        is Some by {
        assert(is_hexadecimal(value[i]));
        assert(bytes[i] == value[i] as u8);
    }
    model::hex_numbers_are_digits(bytes);
    let n = model::hash_number(value)->0;
    digits_are_written_small(bytes, n);
    let written = model::hash_text(n);
    assert forall|i: int| 0 <= i < written.len() implies plain::same_letter(
        #[trigger] written[i],
        value[i],
    ) by {
        assert(is_hexadecimal(value[i]));
        assert(bytes[i] as char == value[i]);
    }
}

/// A hash of neither forty nor thirty-two bytes is none.
pub proof fn hashes_have_two_lengths(value: Seq<char>)
    requires
        vstd::utf8::encode_utf8(value).len() != 40,
        vstd::utf8::encode_utf8(value).len() != 32,
    ensures
        model::hash_number(value) is None,
{
}

/// The text behind a topic's `urn:btih:`, which is written all small or all capital.
pub open spec fn names_hash(topic: Seq<char>, hash: Seq<char>) -> bool {
    topic == "urn:btih:"@ + hash || topic == "URN:BTIH:"@ + hash
}

proof fn topics_name_hashes(topic: Seq<char>, hash: Seq<char>)
    ensures
        names_hash(topic, hash) <==> model::topic_hash(topic) == Some(hash),
{
    let small = "urn:btih:"@;
    let large = "URN:BTIH:"@;
    reveal_strlit("urn:btih:");
    reveal_strlit("URN:BTIH:");
    assert(small[0] != large[0]);
    if topic == small + hash {
        assert(topic.subrange(0, 9) =~= small);
        assert(topic.skip(9) =~= hash);
        assert(text::stands_at(small, topic, 0));
    } else if topic == large + hash {
        assert(topic.subrange(0, 9) =~= large);
        assert(topic.skip(9) =~= hash);
        assert(text::stands_at(large, topic, 0));
        if text::stands_at(small, topic, 0) {
            assert(topic.subrange(0, 9)[0] == small[0]);
        }
    }
    if model::topic_hash(topic) == Some(hash) {
        if text::stands_at(small, topic, 0) {
            assert(topic =~= topic.subrange(0, 9) + topic.skip(9));
        } else {
            assert(topic =~= topic.subrange(0, 9) + topic.skip(9));
        }
    }
}

/// The identity of a magnet link is the hash of its first exact topic that names
/// one; the name `xt` counts in either case.
pub proof fn first_topics_decide(pairs: Seq<(Seq<char>, Seq<char>)>, at: int, hash: Seq<char>)
    requires
        0 <= at < pairs.len(),
        plain::same_word(pairs[at].0, "xt"@),
        names_hash(pairs[at].1, hash),
        forall|i: int|
            #![trigger pairs[i]]
            0 <= i < at ==> !plain::same_word(pairs[i].0, "xt"@) || forall|h: Seq<char>|
                !names_hash(pairs[i].1, h),
    ensures
        model::identity_outcome(pairs) == (match model::hash_number(hash) {
            Some(n) => Ok::<nat, model::MagnetError>(n),
            None => Err(model::MagnetError::InvalidInfoHash),
        }),
    decreases at,
{
    plain::same_words_lower_alike(pairs[0].0, "xt"@);
    if at == 0 {
        topics_name_hashes(pairs[0].1, hash);
    } else {
        if plain::same_word(pairs[0].0, "xt"@) {
            if model::topic_hash(pairs[0].1) is Some {
                let h = model::topic_hash(pairs[0].1)->0;
                topics_name_hashes(pairs[0].1, h);
                assert(!names_hash(pairs[0].1, h));
            }
        }
        let rest = pairs.drop_first();
        assert(rest[at - 1] == pairs[at]);
        assert forall|i: int|
            #![trigger rest[i]]
            0 <= i < at - 1 implies !plain::same_word(rest[i].0, "xt"@) || forall|h: Seq<char>|
            !names_hash(rest[i].1, h) by {
            assert(rest[i] == pairs[i + 1]);
        }
        first_topics_decide(rest, at - 1, hash);
    }
}

/// A link none of whose exact topics names a hash has no identity.
pub proof fn links_without_a_topic_have_no_identity(pairs: Seq<(Seq<char>, Seq<char>)>)
    requires
        forall|i: int|
            #![trigger pairs[i]]
            0 <= i < pairs.len() ==> !plain::same_word(pairs[i].0, "xt"@) || forall|h: Seq<char>|
                !names_hash(pairs[i].1, h),
    ensures
        model::identity_outcome(pairs) == Err::<nat, model::MagnetError>(
            model::MagnetError::MissingInfoHash,
        ),
    decreases pairs.len(),
{
    if pairs.len() > 0 {
        plain::same_words_lower_alike(pairs[0].0, "xt"@);
        if plain::same_word(pairs[0].0, "xt"@) && model::topic_hash(pairs[0].1) is Some {
            let h = model::topic_hash(pairs[0].1)->0;
            topics_name_hashes(pairs[0].1, h);
            assert(!names_hash(pairs[0].1, h));
        }
        let rest = pairs.drop_first();
        assert forall|i: int|
            #![trigger rest[i]]
            0 <= i < rest.len() implies !plain::same_word(rest[i].0, "xt"@) || forall|
            h: Seq<char>,
        |
            !names_hash(rest[i].1, h) by {
            assert(rest[i] == pairs[i + 1]);
        }
        links_without_a_topic_have_no_identity(rest);
    }
}

/// A symbol of base32 in either case.
pub open spec fn is_base32(c: char) -> bool {
    ('a' <= c && c <= 'z') || ('A' <= c && c <= 'Z') || ('2' <= c && c <= '7')
}

proof fn symbols_are_read(symbols: Seq<u8>)
    ensures
        model::base32_number(symbols) is Some <==> forall|i: int|
            0 <= i < symbols.len() ==> model::base32_digit(#[trigger] symbols[i]) is Some,
    decreases symbols.len(),
{
    if symbols.len() > 0 {
        let front = symbols.drop_last();
        symbols_are_read(front);
        if model::base32_number(symbols) is Some {
            assert forall|i: int| 0 <= i < symbols.len() implies model::base32_digit(
                #[trigger] symbols[i],
            ) is Some by {
                if i < front.len() {
                    assert(front[i] == symbols[i]);
                }
            }
        }
        if forall|i: int|
            0 <= i < symbols.len() ==> model::base32_digit(#[trigger] symbols[i]) is Some {
            assert(model::base32_digit(symbols[symbols.len() - 1]) is Some);
            assert forall|i: int| 0 <= i < front.len() implies model::base32_digit(
                #[trigger] front[i],
            ) is Some by {
                assert(front[i] == symbols[i]);
            }
        }
    }
}

proof fn low_characters_are_ascii(value: Seq<char>)
    requires
        forall|i: int| 0 <= i < value.len() ==> '\0' <= #[trigger] value[i] && value[i] <= '\u{7f}',
    ensures
        vstd::utf8::is_ascii_chars(value),
{
    assert forall|i: int| 0 <= i < value.len() implies '\0' <= #[trigger] value[i] <= '\u{7f}' by {
        assert('\0' <= value[i] && value[i] <= '\u{7f}');
    }
}

/// A hash of thirty-two ASCII characters is accepted exactly if each is a symbol of
/// base32, in either case.
pub proof fn base32_hashes_are_accepted(value: Seq<char>)
    requires
        value.len() == 32,
        forall|i: int| 0 <= i < 32 ==> '\0' <= #[trigger] value[i] && value[i] <= '\u{7f}',
    ensures
        model::hash_number(value) is Some <==> forall|i: int|
            0 <= i < 32 ==> is_base32(#[trigger] value[i]),
{
    low_characters_are_ascii(value);
    vstd::utf8::is_ascii_chars_encode_utf8(value);
    let bytes = vstd::utf8::encode_utf8(value);
    let symbols = model::upper_bytes(bytes);
    symbols_are_read(symbols);
    assert forall|i: int| 0 <= i < 32 implies (model::base32_digit(#[trigger] symbols[i])
        is Some <==> is_base32(value[i])) by {
        assert(bytes[i] == value[i] as u8);
    }
    if model::hash_number(value) is Some {
        assert forall|i: int| 0 <= i < 32 implies is_base32(#[trigger] value[i]) by {
            assert(model::base32_digit(symbols[i]) is Some);
        }
    }
    if forall|i: int| 0 <= i < 32 ==> is_base32(#[trigger] value[i]) {
        assert forall|i: int| 0 <= i < symbols.len() implies model::base32_digit(
            #[trigger] symbols[i],
        ) is Some by {
            assert(is_base32(value[i]));
        }
    }
}

/// A hash of forty characters that are not all hexadecimal digits is none.
pub proof fn other_digits_are_no_hash(value: Seq<char>, at: int)
    requires
        value.len() == 40,
        0 <= at < 40,
        forall|i: int| 0 <= i < 40 ==> '\0' <= #[trigger] value[i] && value[i] <= '\u{7f}',
        !is_hexadecimal(value[at]),
    ensures
        model::hash_number(value) is None,
{
    low_characters_are_ascii(value);
    vstd::utf8::is_ascii_chars_encode_utf8(value);
    let bytes = vstd::utf8::encode_utf8(value);
    model::hex_numbers_are_digits(bytes);
    assert(bytes[at] == value[at] as u8);
    assert(model::hex_digit(bytes[at]) is None);
}

/// A link is a magnet link with an identity exactly if it parses, its scheme is
/// `magnet`, and its query gives an identity; it keeps the text that the parser
/// wrote.
pub proof fn magnets_parse_and_have_an_identity(value: Seq<char>)
    ensures
        match model::magnet_outcome(value) {
            Ok(magnet) => weburl::url_parse(value) matches Some(url) && url.scheme == "magnet"@
                && magnet.href == url.href && (weburl::url_query_pairs(url.href) matches Some(pairs)
                && model::identity_outcome(pairs) matches Ok(n) && magnet.hash == model::hash_text(
                n,
            )),
            Err(model::MagnetError::InvalidUri) => weburl::url_parse(value) is None,
            Err(model::MagnetError::UnsupportedScheme) => weburl::url_parse(value) matches Some(url)
                && url.scheme != "magnet"@,
            Err(model::MagnetError::MissingInfoHash) => weburl::url_parse(value) matches Some(url)
                && url.scheme == "magnet"@,
            Err(model::MagnetError::InvalidInfoHash) => weburl::url_parse(value) matches Some(url)
                && url.scheme == "magnet"@,
        },
{
}

} // verus!
