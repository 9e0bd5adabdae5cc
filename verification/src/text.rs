//! Text as sequences of Unicode scalar values: the string operations that the
//! rest of the library is written with.

use vstd::prelude::*;

verus! {

/// `String::push` appends one character to the end of the string.
pub assume_specification[ String::push ](s: &mut String, c: char)
    ensures
        final(s)@ == old(s)@.push(c),
;

/// What `str::to_lowercase` gives: the Unicode lower-case mapping of a text.
pub uninterp spec fn unicode_lowercase(text: Seq<char>) -> Seq<char>;

/// `str::to_lowercase`. Its result depends on the text alone, not on a locale;
/// which characters it maps to which is left to the Unicode tables of std.
pub assume_specification[ str::to_lowercase ](s: &str) -> (r: String)
    ensures
        r@ == unicode_lowercase(s@),
;

/// The characters of `text`, in order.
pub fn chars_of(text: &str) -> (r: Vec<char>)
    ensures
        r@ == text@,
{
    let mut out: Vec<char> = Vec::new();
    for c in it: text.chars()
        invariant
            out@ == text@.take(it.index() as int),
            it.seq() == text@,
    {
        proof {
            assert(text@.take(it.index() as int + 1) =~= text@.take(it.index() as int).push(c));
        }
        out.push(c);
    }
    proof {
        assert(text@.take(text@.len() as int) =~= text@);
    }
    out
}

/// A string of the given characters.
pub fn text_of(chars: &[char]) -> (r: String)
    ensures
        r@ == chars@,
{
    let mut out = String::new();
    let mut i: usize = 0;
    while i < chars.len()
        invariant
            i <= chars.len(),
            out@ == chars@.take(i as int),
        decreases chars.len() - i,
    {
        proof {
            assert(chars@.take(i as int + 1) =~= chars@.take(i as int).push(chars@[i as int]));
        }
        out.push(chars[i]);
        i = i + 1;
    }
    proof {
        assert(chars@.take(chars@.len() as int) =~= chars@);
    }
    out
}

/// The characters at positions `from` up to but not including `to`.
pub fn slice_chars(chars: &[char], from: usize, to: usize) -> (r: Vec<char>)
    requires
        from <= to <= chars@.len(),
    ensures
        r@ == chars@.subrange(from as int, to as int),
{
    let mut out: Vec<char> = Vec::new();
    let mut i: usize = from;
    while i < to
        invariant
            from <= i <= to <= chars@.len(),
            out@ == chars@.subrange(from as int, i as int),
        decreases to - i,
    {
        proof {
            assert(chars@.subrange(from as int, i as int + 1) =~= chars@.subrange(
                from as int,
                i as int,
            ).push(chars@[i as int]));
        }
        out.push(chars[i]);
        i = i + 1;
    }
    out
}

/// Whether two texts hold the same characters.
pub fn same_text(left: &str, right: &str) -> (r: bool)
    ensures
        r == (left@ == right@),
{
    left.to_owned() == right.to_owned()
}

/// Whether two character slices are equal.
pub fn same_chars(left: &[char], right: &[char]) -> (r: bool)
    ensures
        r == (left@ == right@),
{
    if left.len() != right.len() {
        return false;
    }
    let mut i: usize = 0;
    while i < left.len()
        invariant
            i <= left.len(),
            left@.len() == right@.len(),
            left@.take(i as int) == right@.take(i as int),
        decreases left.len() - i,
    {
        if left[i] != right[i] {
            return false;
        }
        proof {
            assert(left@.take(i as int + 1) =~= left@.take(i as int).push(left@[i as int]));
            assert(right@.take(i as int + 1) =~= right@.take(i as int).push(right@[i as int]));
        }
        i = i + 1;
    }
    proof {
        assert(left@.take(left@.len() as int) =~= left@);
        assert(right@.take(right@.len() as int) =~= right@);
    }
    true
}

/// Whether the characters are those of `text`.
pub fn is_text(chars: &[char], text: &str) -> (r: bool)
    ensures
        r == (chars@ == text@),
{
    let wanted = chars_of(text);
    same_chars(chars, &wanted)
}

/// Texts by their characters.
pub open spec fn views(texts: Seq<String>) -> Seq<Seq<char>> {
    Seq::new(texts.len(), |i: int| texts[i]@)
}

/// Whether a text is among the texts.
pub fn is_listed(texts: &Vec<String>, wanted: &str) -> (r: bool)
    ensures
        r == views(texts@).contains(wanted@),
{
    let mut i: usize = 0;
    while i < texts.len()
        invariant
            i <= texts@.len(),
            forall|j: int| 0 <= j < i ==> views(texts@)[j] != wanted@,
        decreases texts@.len() - i,
    {
        if same_text(texts[i].as_str(), wanted) {
            proof {
                assert(views(texts@)[i as int] == wanted@);
            }
            return true;
        }
        i = i + 1;
    }
    false
}

/// An optional text by its characters.
pub open spec fn opt_view(text: Option<String>) -> Option<Seq<char>> {
    match text {
        Some(t) => Some(t@),
        None => None,
    }
}

/// A copy of an optional text.
pub fn copy_opt(text: &Option<String>) -> (r: Option<String>)
    ensures
        opt_view(r) == opt_view(*text),
{
    match text {
        Some(t) => Some(t.clone()),
        None => None,
    }
}

// ---------------------------------------------------------------- ASCII case

/// ASCII letters lowered, every other character kept.
pub open spec fn lower_char(c: char) -> char {
    if 'A' <= c && c <= 'Z' {
        (c as u32 + 32) as char
    } else {
        c
    }
}

/// Every character by [`lower_char`].
pub open spec fn lower(text: Seq<char>) -> Seq<char> {
    Seq::new(text.len(), |i: int| lower_char(text[i]))
}

fn to_lower_char(c: char) -> (r: char)
    ensures
        r == lower_char(c),
{
    if 'A' <= c && c <= 'Z' {
        (c as u8 + 32) as char
    } else {
        c
    }
}

/// The characters with their ASCII letters lowered.
pub fn lower_chars(chars: &[char]) -> (r: Vec<char>)
    ensures
        r@ == lower(chars@),
{
    let mut out: Vec<char> = Vec::new();
    let mut i: usize = 0;
    while i < chars.len()
        invariant
            i <= chars.len(),
            out@ == lower(chars@.take(i as int)),
        decreases chars.len() - i,
    {
        let c = to_lower_char(chars[i]);
        out.push(c);
        proof {
            assert(out@ =~= lower(chars@.take(i as int + 1)));
        }
        i = i + 1;
    }
    proof {
        assert(chars@.take(chars@.len() as int) =~= chars@);
    }
    out
}

/// The text with its ASCII letters lowered, as characters.
pub fn lower_text(text: &str) -> (r: Vec<char>)
    ensures
        r@ == lower(text@),
{
    let chars = chars_of(text);
    lower_chars(&chars)
}

/// Whether two texts are equal once their ASCII letters are lowered.
pub fn same_ignoring_case(left: &str, right: &str) -> (r: bool)
    ensures
        r == (lower(left@) == lower(right@)),
{
    let a = lower_text(left);
    let b = lower_text(right);
    same_chars(&a, &b)
}

// ----------------------------------------------------------------- searching

/// `needle` stands in `hay` at position `at`.
pub open spec fn stands_at(needle: Seq<char>, hay: Seq<char>, at: int) -> bool {
    0 <= at && at + needle.len() <= hay.len() && hay.subrange(at, at + needle.len()) == needle
}

/// `needle` stands somewhere in `hay`.
pub open spec fn occurs(needle: Seq<char>, hay: Seq<char>) -> bool {
    exists|at: int| #[trigger] stands_at(needle, hay, at)
}

fn stands_here(hay: &[char], needle: &[char], at: usize) -> (r: bool)
    ensures
        r == stands_at(needle@, hay@, at as int),
{
    if needle.len() > hay.len() || at > hay.len() - needle.len() {
        return false;
    }
    let mut i: usize = 0;
    while i < needle.len()
        invariant
            i <= needle.len(),
            at + needle.len() <= hay.len(),
            forall|j: int| 0 <= j < i ==> hay@[at + j] == needle@[j],
        decreases needle.len() - i,
    {
        if hay[at + i] != needle[i] {
            proof {
                assert(hay@.subrange(at as int, at + needle@.len())[i as int] == hay@[at + i]);
            }
            return false;
        }
        i = i + 1;
    }
    proof {
        assert(hay@.subrange(at as int, at + needle@.len()) =~= needle@);
    }
    true
}

/// Whether `needle` occurs in the characters of `hay`.
pub fn contains(hay: &[char], needle: &str) -> (r: bool)
    ensures
        r == occurs(needle@, hay@),
{
    let wanted = chars_of(needle);
    let mut at: usize = 0;
    while at < hay.len()
        invariant
            at <= hay.len(),
            wanted@ == needle@,
            forall|k: int| 0 <= k < at ==> !#[trigger] stands_at(needle@, hay@, k),
        decreases hay.len() - at,
    {
        if stands_here(hay, &wanted, at) {
            return true;
        }
        at = at + 1;
    }
    let found = stands_here(hay, &wanted, at);
    proof {
        assert forall|k: int| #[trigger] stands_at(needle@, hay@, k) implies found by {
            assert(k <= hay@.len());
        }
        if found {
            assert(stands_at(needle@, hay@, at as int));
        }
    }
    found
}

/// What follows `prefix` in `text`, where `text` begins with it.
pub open spec fn after_prefix(text: Seq<char>, prefix: Seq<char>) -> Option<Seq<char>> {
    if stands_at(prefix, text, 0) {
        Some(text.skip(prefix.len() as int))
    } else {
        None
    }
}

/// Strips `prefix` from the front of `chars`, if it is there.
pub fn strip_prefix(chars: &[char], prefix: &str) -> (r: Option<Vec<char>>)
    ensures
        match r {
            Some(rest) => after_prefix(chars@, prefix@) == Some(rest@),
            None => after_prefix(chars@, prefix@) is None,
        },
{
    let wanted = chars_of(prefix);
    if stands_here(chars, &wanted, 0) {
        let rest = slice_chars(chars, wanted.len(), chars.len());
        proof {
            assert(rest@ =~= chars@.skip(prefix@.len() as int));
        }
        Some(rest)
    } else {
        None
    }
}

// --------------------------------------------------------- character classes

/// The Unicode `White_Space` characters.
pub open spec fn is_white(c: char) -> bool {
    ||| '\u{9}' <= c && c <= '\u{d}'
    ||| c == ' '
    ||| c == '\u{85}'
    ||| c == '\u{a0}'
    ||| c == '\u{1680}'
    ||| '\u{2000}' <= c && c <= '\u{200a}'
    ||| c == '\u{2028}'
    ||| c == '\u{2029}'
    ||| c == '\u{202f}'
    ||| c == '\u{205f}'
    ||| c == '\u{3000}'
}

/// The ASCII decimal digits.
pub open spec fn is_digit(c: char) -> bool {
    '0' <= c && c <= '9'
}

/// The ASCII letters.
pub open spec fn is_letter(c: char) -> bool {
    ('a' <= c && c <= 'z') || ('A' <= c && c <= 'Z')
}

/// The Unicode `Cc` characters: the C0 and C1 controls and DEL.
pub open spec fn is_control(c: char) -> bool {
    c <= '\u{1f}' || ('\u{7f}' <= c && c <= '\u{9f}')
}

/// The characters that steer bidirectional display: the embeddings, overrides
/// and isolates with their terminators, and the directional marks.
pub open spec fn is_bidi_mark(c: char) -> bool {
    ||| c == '\u{61c}'
    ||| c == '\u{200e}'
    ||| c == '\u{200f}'
    ||| '\u{202a}' <= c && c <= '\u{202e}'
    ||| '\u{2066}' <= c && c <= '\u{2069}'
}

/// A set of characters by which text is cut and stripped.
#[derive(Clone, Copy)]
pub enum CharClass {
    /// White space.
    White,
    /// Everything but white space.
    Solid,
    /// Everything but ASCII digits and the full stop.
    NotNumeral,
    /// Everything but ASCII letters.
    NotLetter,
    /// ASCII digits.
    Digit,
    /// The slash alone.
    Slash,
    /// The full stop alone.
    Dot,
}

impl CharClass {
    /// The members of the class.
    pub open spec fn has(self, c: char) -> bool {
        match self {
            CharClass::White => is_white(c),
            CharClass::Solid => !is_white(c),
            CharClass::NotNumeral => !is_digit(c) && c != '.',
            CharClass::NotLetter => !is_letter(c),
            CharClass::Digit => is_digit(c),
            CharClass::Slash => c == '/',
            CharClass::Dot => c == '.',
        }
    }

    /// Whether `c` is in the class.
    pub fn holds(self, c: char) -> (r: bool)
        ensures
            r == self.has(c),
    {
        let white = ('\u{9}' <= c && c <= '\u{d}') || c == ' ' || c == '\u{85}' || c == '\u{a0}' || c
            == '\u{1680}' || ('\u{2000}' <= c && c <= '\u{200a}') || c == '\u{2028}' || c
            == '\u{2029}' || c == '\u{202f}' || c == '\u{205f}' || c == '\u{3000}';
        let digit = '0' <= c && c <= '9';
        match self {
            CharClass::White => white,
            CharClass::Solid => !white,
            CharClass::NotNumeral => !digit && c != '.',
            CharClass::NotLetter => !(('a' <= c && c <= 'z') || ('A' <= c && c <= 'Z')),
            CharClass::Digit => digit,
            CharClass::Slash => c == '/',
            CharClass::Dot => c == '.',
        }
    }
}

/// Whether `c` may not reach a terminal: a control or a bidirectional mark.
pub fn is_unsafe_for_display(c: char) -> (r: bool)
    ensures
        r == (is_control(c) || is_bidi_mark(c)),
{
    c <= '\u{1f}' || ('\u{7f}' <= c && c <= '\u{9f}') || c == '\u{61c}' || c == '\u{200e}' || c
        == '\u{200f}' || ('\u{202a}' <= c && c <= '\u{202e}') || ('\u{2066}' <= c && c
        <= '\u{2069}')
}

/// How many characters at the front of `text` are in `class`.
pub open spec fn run(text: Seq<char>, class: CharClass) -> nat
    decreases text.len(),
{
    if text.len() > 0 && class.has(text[0]) {
        1 + run(text.drop_first(), class)
    } else {
        0
    }
}

/// The end of the run of `class` characters that starts at `from`.
pub fn run_end(chars: &[char], from: usize, class: CharClass) -> (r: usize)
    requires
        from <= chars@.len(),
    ensures
        r == from + run(chars@.skip(from as int), class),
        from <= r <= chars@.len(),
{
    let mut i: usize = from;
    while i < chars.len() && class.holds(chars[i])
        invariant
            from <= i <= chars@.len(),
            from + run(chars@.skip(from as int), class) == i + run(chars@.skip(i as int), class),
        decreases chars.len() - i,
    {
        proof {
            assert(chars@.skip(i as int).drop_first() =~= chars@.skip(i as int + 1));
        }
        i = i + 1;
    }
    proof {
        if i < chars@.len() {
            assert(chars@.skip(i as int)[0] == chars@[i as int]);
        }
    }
    i
}

/// A run is within the text, holds only members of the class, and what follows
/// it, if anything does, is not a member.
pub proof fn run_is_maximal(text: Seq<char>, class: CharClass)
    ensures
        run(text, class) <= text.len(),
        forall|i: int| 0 <= i < run(text, class) ==> class.has(#[trigger] text[i]),
        run(text, class) < text.len() ==> !class.has(text[run(text, class) as int]),
    decreases text.len(),
{
    if text.len() > 0 && class.has(text[0]) {
        let rest = text.drop_first();
        run_is_maximal(rest, class);
        assert forall|i: int| 0 <= i < run(text, class) implies class.has(#[trigger] text[i]) by {
            if i > 0 {
                assert(text[i] == rest[i - 1]);
            }
        }
    }
}

/// `text` without the members of `class` at its front.
pub open spec fn strip_start(text: Seq<char>, class: CharClass) -> Seq<char> {
    text.skip(run(text, class) as int)
}

/// `text` without the members of `class` at its end.
pub open spec fn strip_end(text: Seq<char>, class: CharClass) -> Seq<char>
    decreases text.len(),
{
    if text.len() > 0 && class.has(text.last()) {
        strip_end(text.drop_last(), class)
    } else {
        text
    }
}

/// `text` without the members of `class` at both ends.
pub open spec fn trimmed(text: Seq<char>, class: CharClass) -> Seq<char> {
    strip_end(strip_start(text, class), class)
}

/// Removes the members of `class` from the end of `chars`.
pub fn trim_end(chars: &[char], class: CharClass) -> (r: Vec<char>)
    ensures
        r@ == strip_end(chars@, class),
{
    let mut end: usize = chars.len();
    proof {
        assert(chars@.take(end as int) =~= chars@);
    }
    while end > 0 && class.holds(chars[end - 1])
        invariant
            end <= chars@.len(),
            strip_end(chars@.take(end as int), class) == strip_end(chars@, class),
        decreases end,
    {
        proof {
            assert(chars@.take(end as int).drop_last() =~= chars@.take(end as int - 1));
        }
        end = end - 1;
    }
    let out = slice_chars(chars, 0, end);
    proof {
        assert(out@ =~= chars@.take(end as int));
        if end > 0 {
            assert(chars@.take(end as int).last() == chars@[end as int - 1]);
        }
    }
    out
}

/// Removes the members of `class` from both ends of `chars`.
pub fn trim(chars: &[char], class: CharClass) -> (r: Vec<char>)
    ensures
        r@ == trimmed(chars@, class),
{
    proof {
        assert(chars@.skip(0) =~= chars@);
    }
    let start = run_end(chars, 0, class);
    let tail = slice_chars(chars, start, chars.len());
    proof {
        assert(tail@ =~= strip_start(chars@, class));
    }
    trim_end(&tail, class)
}

/// The words of `text`: its maximal runs of characters that are not white space.
pub open spec fn words(text: Seq<char>) -> Seq<Seq<char>>
    decreases text.len(),
{
    let rest = strip_start(text, CharClass::White);
    let size = run(rest, CharClass::Solid);
    if size == 0 || size > rest.len() || rest.len() > text.len() {
        Seq::empty()
    } else {
        seq![rest.take(size as int)] + words(rest.skip(size as int))
    }
}

/// Character sequences by their views.
pub open spec fn char_views(parts: Seq<Vec<char>>) -> Seq<Seq<char>> {
    Seq::new(parts.len(), |i: int| parts[i]@)
}

/// Cuts `chars` into its words.
pub fn split_words(chars: &[char]) -> (r: Vec<Vec<char>>)
    ensures
        char_views(r@) == words(chars@),
{
    let mut out: Vec<Vec<char>> = Vec::new();
    let mut at: usize = 0;
    proof {
        assert(chars@.skip(0) =~= chars@);
        assert(char_views(out@) + words(chars@) =~= words(chars@));
    }
    loop
        invariant
            at <= chars@.len(),
            char_views(out@) + words(chars@.skip(at as int)) == words(chars@),
        ensures
            char_views(out@) == words(chars@),
        decreases chars@.len() - at,
    {
        let start = run_end(chars, at, CharClass::White);
        let end = run_end(chars, start, CharClass::Solid);
        proof {
            let text = chars@.skip(at as int);
            run_is_maximal(text, CharClass::White);
            assert(strip_start(text, CharClass::White) =~= chars@.skip(start as int));
            run_is_maximal(chars@.skip(start as int), CharClass::Solid);
        }
        if end == start {
            proof {
                assert(words(chars@.skip(at as int)) =~= Seq::empty());
                assert(char_views(out@) + Seq::<Seq<char>>::empty() =~= char_views(out@));
            }
            break;
        }
        let word = slice_chars(chars, start, end);
        let ghost before = char_views(out@);
        out.push(word);
        proof {
            let rest = chars@.skip(start as int);
            assert(word@ =~= rest.take(end - start));
            assert(rest.skip(end - start) =~= chars@.skip(end as int));
            assert(char_views(out@) =~= before.push(word@));
            assert(before + (seq![word@] + words(chars@.skip(end as int))) =~= before.push(word@)
                + words(chars@.skip(end as int)));
        }
        at = end;
    }
    out
}

// ------------------------------------------------------------ decimal digits

/// All characters are ASCII digits.
pub open spec fn all_digits(text: Seq<char>) -> bool {
    forall|i: int| 0 <= i < text.len() ==> is_digit(#[trigger] text[i])
}

/// The value of a digit.
pub open spec fn digit_value(c: char) -> nat {
    (c as u32 - '0' as u32) as nat
}

/// The digit of a value below ten.
pub open spec fn digit_char(n: nat) -> char {
    (n + 48) as char
}

/// The number that a sequence of decimal digits denotes.
pub open spec fn decimal_value(text: Seq<char>) -> nat
    decreases text.len(),
{
    if text.len() == 0 {
        0
    } else {
        10 * decimal_value(text.drop_last()) + digit_value(text.last())
    }
}

/// The decimal digits of a number, without leading zeros.
pub open spec fn decimal_text(n: nat) -> Seq<char>
    decreases n,
{
    if n < 10 {
        seq![digit_char(n)]
    } else {
        decimal_text(n / 10).push(digit_char(n % 10))
    }
}

/// Writing a number in decimal and reading the digits gives the number back.
pub proof fn decimal_text_round_trips(n: nat)
    ensures
        all_digits(decimal_text(n)),
        decimal_text(n).len() > 0,
        decimal_value(decimal_text(n)) == n,
    decreases n,
{
    if n < 10 {
        let text = decimal_text(n);
        assert(text.drop_last() =~= Seq::empty());
        assert(decimal_value(text.drop_last()) == 0);
    } else {
        decimal_text_round_trips(n / 10);
        let text = decimal_text(n);
        assert(text.drop_last() =~= decimal_text(n / 10));
    }
}

/// A number in decimal.
pub fn decimal_string(n: u64) -> (r: String)
    ensures
        r@ == decimal_text(n as nat),
    decreases n,
{
    let mut out = if n < 10 {
        String::new()
    } else {
        decimal_string(n / 10)
    };
    let digit = (n % 10) as u8;
    out.push((digit + 48) as char);
    proof {
        assert(out@ =~= decimal_text(n as nat));
    }
    out
}

/// The value of a nonempty sequence of decimal digits, if it is one and fits.
pub open spec fn number_in(text: Seq<char>) -> Option<u64> {
    if text.len() > 0 && all_digits(text) && decimal_value(text) <= u64::MAX {
        Some(decimal_value(text) as u64)
    } else {
        None
    }
}

/// The value only grows as digits are appended.
pub proof fn decimal_value_grows(text: Seq<char>, size: int)
    requires
        0 <= size <= text.len(),
    ensures
        decimal_value(text.take(size)) <= decimal_value(text),
    decreases text.len() - size,
{
    if size == text.len() {
        assert(text.take(size) =~= text);
    } else {
        decimal_value_grows(text, size + 1);
        assert(text.take(size + 1).drop_last() =~= text.take(size));
    }
}

/// Reads a sequence of decimal digits.
pub fn read_number(chars: &[char]) -> (r: Option<u64>)
    ensures
        r == number_in(chars@),
{
    if chars.len() == 0 {
        return None;
    }
    let mut value: u64 = 0;
    let mut i: usize = 0;
    while i < chars.len()
        invariant
            i <= chars.len(),
            all_digits(chars@.take(i as int)),
            value == decimal_value(chars@.take(i as int)),
        decreases chars.len() - i,
    {
        let c = chars[i];
        if !CharClass::Digit.holds(c) {
            proof {
                assert(!is_digit(chars@[i as int]));
            }
            return None;
        }
        let digit = (c as u8 - 48) as u64;
        proof {
            assert(chars@.take(i as int + 1).drop_last() =~= chars@.take(i as int));
            decimal_value_grows(chars@, i as int + 1);
        }
        if value > (u64::MAX - digit) / 10 {
            proof {
                assert(10 * value + digit > u64::MAX) by (nonlinear_arith)
                    requires
                        value > (u64::MAX - digit) / 10,
                        digit < 10,
                ;
            }
            return None;
        }
        value = value * 10 + digit;
        i = i + 1;
    }
    proof {
        assert(chars@.take(chars@.len() as int) =~= chars@);
    }
    Some(value)
}

// ------------------------------------------------------------------- joining

/// The parts in order with `separator` between neighbours.
pub open spec fn joined(parts: Seq<Seq<char>>, separator: Seq<char>) -> Seq<char>
    decreases parts.len(),
{
    if parts.len() == 0 {
        Seq::empty()
    } else if parts.len() == 1 {
        parts[0]
    } else {
        joined(parts.drop_last(), separator) + separator + parts.last()
    }
}

/// Joins at most the first `limit` of the texts.
pub fn join_first(parts: &Vec<String>, limit: usize, separator: &str) -> (r: String)
    ensures
        r@ == joined(
            views(parts@).take(
                if limit < parts@.len() {
                    limit as int
                } else {
                    parts@.len() as int
                },
            ),
            separator@,
        ),
{
    let end = if limit < parts.len() {
        limit
    } else {
        parts.len()
    };
    let mut out = String::new();
    let mut i: usize = 0;
    proof {
        assert(views(parts@).take(0) =~= Seq::empty());
    }
    while i < end
        invariant
            i <= end <= parts@.len(),
            out@ == joined(views(parts@).take(i as int), separator@),
        decreases end - i,
    {
        proof {
            assert(views(parts@).take(i as int + 1).drop_last() =~= views(parts@).take(i as int));
        }
        if i > 0 {
            out.append(separator);
        }
        out.append(parts[i].as_str());
        i = i + 1;
        proof {
            if i == 1 {
                assert(out@ =~= parts@[0]@);
            }
        }
    }
    out
}

/// The concatenation of several texts.
pub open spec fn flat(parts: Seq<Seq<char>>) -> Seq<char>
    decreases parts.len(),
{
    if parts.len() == 0 {
        Seq::empty()
    } else {
        flat(parts.drop_last()) + parts.last()
    }
}

/// Concatenates at most the first `limit` of the texts.
pub fn concat_first(parts: &Vec<String>, limit: usize) -> (r: String)
    ensures
        r@ == flat(
            views(parts@).take(
                if limit < parts@.len() {
                    limit as int
                } else {
                    parts@.len() as int
                },
            ),
        ),
{
    let end = if limit < parts.len() {
        limit
    } else {
        parts.len()
    };
    let mut out = String::new();
    let mut i: usize = 0;
    proof {
        assert(views(parts@).take(0) =~= Seq::empty());
    }
    while i < end
        invariant
            i <= end <= parts@.len(),
            out@ == flat(views(parts@).take(i as int)),
        decreases end - i,
    {
        proof {
            assert(views(parts@).take(i as int + 1).drop_last() =~= views(parts@).take(i as int));
        }
        out.append(parts[i].as_str());
        i = i + 1;
    }
    out
}

} // verus!
