//! Showing results and choosing one.

use crate::model;
use crate::model::{sanitize_display_text, TorrentResult};
use crate::size;
use crate::size::size_string;
use crate::text;
use crate::text::{chars_of, decimal_string, slice_chars, text_of};
use vstd::prelude::*;

verus! {

// ----------------------------------------------------------------- formatting

/// The units of [`human_size`].
pub open spec fn binary_units() -> Seq<Seq<char>> {
    seq!["B"@, "KiB"@, "MiB"@, "GiB"@, "TiB"@, "PiB"@]
}

/// A size as it is shown: in the largest binary unit that it reaches, with two
/// decimals from the second unit on.
pub open spec fn human_size_text(bytes: Option<u64>) -> Seq<char> {
    match bytes {
        Some(bytes) => size::size_text(bytes as nat, binary_units(), 2),
        None => "unknown"@,
    }
}

/// A size as it is shown.
pub fn human_size(bytes: Option<u64>) -> (r: String)
    ensures
        r@ == human_size_text(bytes),
{
    match bytes {
        Some(bytes) => {
            let units = ["B", "KiB", "MiB", "GiB", "TiB", "PiB"];
            proof {
                assert(size::str_views(units@) =~= binary_units());
            }
            size_string(bytes, &units, 2)
        },
        None => "unknown".to_string(),
    }
}

/// A text of at most `limit` characters: one that is longer ends in an ellipsis.
pub open spec fn ellipsized(value: Seq<char>, limit: nat) -> Seq<char> {
    if value.len() <= limit {
        value
    } else if limit == 0 {
        Seq::empty()
    } else {
        value.take(limit - 1).push('\u{2026}')
    }
}

/// Cuts a text to `max_characters` characters, the last of which is an ellipsis
/// where anything was cut.
pub fn truncate_with_ellipsis(value: &str, max_characters: usize) -> (r: String)
    ensures
        r@ == ellipsized(value@, max_characters as nat),
        r@.len() <= max_characters,
{
    let chars = chars_of(value);
    if chars.len() <= max_characters {
        return text_of(&chars);
    }
    if max_characters == 0 {
        let none = String::new();
        proof {
            assert(none@ =~= Seq::empty());
        }
        return none;
    }
    let mut front = slice_chars(&chars, 0, max_characters - 1);
    proof {
        assert(front@ =~= chars@.take(max_characters - 1));
    }
    front.push('\u{2026}');
    text_of(&front)
}

/// A count as it is shown.
pub open spec fn count_text(count: Option<u64>) -> Seq<char> {
    match count {
        Some(count) => text::decimal_text(count as nat),
        None => "?"@,
    }
}

/// A category as it is shown.
pub open spec fn category_text(category: Option<Seq<char>>) -> Seq<char> {
    match category {
        Some(value) => if model::sanitized(value, 128).len() > 0 {
            model::sanitized(value, 128)
        } else {
            "unknown"@
        },
        None => "unknown"@,
    }
}

/// One more than `limit`, as far as that can be counted.
pub open spec fn one_more(limit: usize) -> nat {
    if limit == usize::MAX {
        usize::MAX as nat
    } else {
        limit as nat + 1
    }
}

/// A title as it is shown.
pub open spec fn title_text(name: Seq<char>, limit: usize) -> Seq<char> {
    ellipsized(model::sanitized(name, one_more(limit)), limit as nat)
}

/// A result as it is shown.
pub open spec fn result_text(result: model::TorrentModel, limit: usize) -> Seq<char> {
    title_text(result.name, limit) + " | seeders "@ + count_text(result.seeders) + " | leechers "@
        + count_text(result.leechers) + " | "@ + category_text(result.category) + " | "@
        + model::sanitized(result.source_host, 253) + " | "@ + human_size_text(result.size_bytes)
}

fn show_count(count: Option<u64>) -> (r: String)
    ensures
        r@ == count_text(count),
{
    match count {
        Some(count) => decimal_string(count),
        None => "?".to_string(),
    }
}

fn show_category(category: &Option<String>) -> (r: String)
    ensures
        r@ == category_text(text::opt_view(*category)),
{
    match category {
        Some(value) => {
            let safe = sanitize_display_text(value.as_str(), 128);
            if chars_of(safe.as_str()).len() > 0 {
                safe
            } else {
                "unknown".to_string()
            }
        },
        None => "unknown".to_string(),
    }
}

/// A result as it is shown, with at most `max_title_characters` of its title.
pub fn format_result(result: &TorrentResult, max_title_characters: usize) -> (r: String)
    ensures
        r@ == result_text(result@, max_title_characters),
{
    let limit = if max_title_characters == usize::MAX {
        usize::MAX
    } else {
        max_title_characters + 1
    };
    let safe = sanitize_display_text(result.name.as_str(), limit);
    let mut out = truncate_with_ellipsis(safe.as_str(), max_title_characters);
    out.append(" | seeders ");
    let seeders = show_count(result.seeders);
    out.append(seeders.as_str());
    out.append(" | leechers ");
    let leechers = show_count(result.leechers);
    out.append(leechers.as_str());
    out.append(" | ");
    let category = show_category(&result.category);
    out.append(category.as_str());
    out.append(" | ");
    let source = sanitize_display_text(result.source_host.as_str(), 253);
    out.append(source.as_str());
    out.append(" | ");
    let shown = human_size(result.size_bytes);
    out.append(shown.as_str());
    out
}

/// What may not reach a terminal does not occur in a text.
pub open spec fn is_inert(value: Seq<char>) -> bool {
    forall|i: int|
        0 <= i < value.len() ==> !text::is_control(#[trigger] value[i]) && !text::is_bidi_mark(
            value[i],
        )
}

/// Inert texts stay inert when they are joined.
pub proof fn inert_joins(front: Seq<char>, back: Seq<char>)
    requires
        is_inert(front),
        is_inert(back),
    ensures
        is_inert(front + back),
{
    let both = front + back;
    assert forall|i: int| 0 <= i < both.len() implies !text::is_control(#[trigger] both[i])
        && !text::is_bidi_mark(both[i]) by {
        if i < front.len() {
            assert(both[i] == front[i]);
        } else {
            assert(both[i] == back[i - front.len()]);
        }
    }
}

proof fn digits_are_inert(n: nat)
    ensures
        is_inert(text::decimal_text(n)),
{
    text::decimal_text_round_trips(n);
    let digits = text::decimal_text(n);
    assert forall|i: int| 0 <= i < digits.len() implies !text::is_control(#[trigger] digits[i])
        && !text::is_bidi_mark(digits[i]) by {
        assert(text::is_digit(digits[i]));
    }
}

proof fn last_digits_are_inert(n: nat, places: nat)
    ensures
        is_inert(size::last_digits(n, places)),
    decreases places,
{
    if places > 0 {
        let front = size::last_digits(n / 10, (places - 1) as nat);
        last_digits_are_inert(n / 10, (places - 1) as nat);
        inert_joins(front, seq![text::digit_char(n % 10)]);
        assert(front + seq![text::digit_char(n % 10)] =~= size::last_digits(n, places));
    }
}

proof fn words_are_inert()
    ensures
        is_inert(" | seeders "@),
        is_inert(" | leechers "@),
        is_inert(" | "@),
        is_inert("?"@),
        is_inert("unknown"@),
        is_inert(" "@),
        is_inert("."@),
        forall|i: int| 0 <= i < 6 ==> is_inert(#[trigger] binary_units()[i]),
{
    reveal_strlit(" | seeders ");
    reveal_strlit(" | leechers ");
    reveal_strlit(" | ");
    reveal_strlit("?");
    reveal_strlit("unknown");
    reveal_strlit(" ");
    reveal_strlit(".");
    reveal_strlit("B");
    reveal_strlit("KiB");
    reveal_strlit("MiB");
    reveal_strlit("GiB");
    reveal_strlit("TiB");
    reveal_strlit("PiB");
}

proof fn unit_index_bounded(n: nat, last: nat)
    ensures
        size::unit_index(n, last) <= last,
    decreases last,
{
    if last > 0 {
        unit_index_bounded(n, (last - 1) as nat);
    }
}

/// A size in inert units is inert.
pub proof fn size_texts_are_inert(n: nat, units: Seq<Seq<char>>, places: nat)
    requires
        units.len() > 0,
        forall|i: int| 0 <= i < units.len() ==> is_inert(#[trigger] units[i]),
    ensures
        is_inert(size::size_text(n, units, places)),
{
    words_are_inert();
    let double = size::nearest_double(n);
    let last = (units.len() - 1) as nat;
    let k = size::unit_index(double, last);
    unit_index_bounded(double, last);
    assert(is_inert(units[k as int]));
    assert(is_inert(units[0]));
    if k == 0 {
        digits_are_inert(n);
        inert_joins(text::decimal_text(n), " "@);
        inert_joins(text::decimal_text(n) + " "@, units[0]);
    } else {
        let scaled = size::half_even(size::ten_to(places) * double, size::kib_to(k));
        let whole = text::decimal_text(scaled / size::ten_to(places));
        let tail = size::last_digits(scaled, places);
        digits_are_inert(scaled / size::ten_to(places));
        last_digits_are_inert(scaled, places);
        inert_joins(whole, "."@);
        inert_joins(whole + "."@, tail);
        inert_joins(whole + "."@ + tail, " "@);
        inert_joins(whole + "."@ + tail + " "@, units[k as int]);
    }
}

proof fn sizes_are_inert(bytes: Option<u64>)
    ensures
        is_inert(human_size_text(bytes)),
{
    words_are_inert();
    if let Some(bytes) = bytes {
        assert(binary_units().len() == 6);
        size_texts_are_inert(bytes as nat, binary_units(), 2);
    }
}

/// Whatever a page supplied, a result as it is shown holds no terminal control
/// and no bidirectional mark.
pub proof fn shown_results_are_inert(result: model::TorrentModel, limit: usize)
    ensures
        is_inert(result_text(result, limit)),
{
    words_are_inert();
    let safe = model::sanitized(result.name, one_more(limit));
    model::sanitized_is_inert(result.name, one_more(limit));
    let title = title_text(result.name, limit);
    assert(is_inert(title)) by {
        assert forall|i: int| 0 <= i < title.len() implies !text::is_control(#[trigger] title[i])
            && !text::is_bidi_mark(title[i]) by {
            if title.len() == safe.len() || i < limit - 1 {
                assert(title[i] == safe[i]);
            }
        }
    }
    let seeders = count_text(result.seeders);
    let leechers = count_text(result.leechers);
    digits_are_inert(
        match result.seeders {
            Some(count) => count as nat,
            None => 0,
        },
    );
    digits_are_inert(
        match result.leechers {
            Some(count) => count as nat,
            None => 0,
        },
    );
    let category = category_text(result.category);
    if let Some(value) = result.category {
        model::sanitized_is_inert(value, 128);
    }
    let source = model::sanitized(result.source_host, 253);
    model::sanitized_is_inert(result.source_host, 253);
    let bytes = human_size_text(result.size_bytes);
    sizes_are_inert(result.size_bytes);
    let a = title + " | seeders "@;
    inert_joins(title, " | seeders "@);
    let b = a + seeders;
    inert_joins(a, seeders);
    let c = b + " | leechers "@;
    inert_joins(b, " | leechers "@);
    let d = c + leechers;
    inert_joins(c, leechers);
    let e = d + " | "@;
    inert_joins(d, " | "@);
    let f = e + category;
    inert_joins(e, category);
    let g = f + " | "@;
    inert_joins(f, " | "@);
    let h = g + source;
    inert_joins(g, source);
    let k = h + " | "@;
    inert_joins(h, " | "@);
    inert_joins(k, bytes);
}

// ------------------------------------------------------------------- choosing

/// Why nothing was chosen.
#[derive(Debug, Clone, Copy, PartialEq, Eq, Structural)]
pub enum SelectionError {
    NoResults,
    PromptFailed,
    Cancelled,
}

/// What each error says.
pub open spec fn selection_error_text(error: SelectionError) -> Seq<char> {
    match error {
        SelectionError::NoResults => "no eligible torrent results were found"@,
        SelectionError::PromptFailed => "interactive selection failed"@,
        SelectionError::Cancelled => "torrent selection was cancelled"@,
    }
}

impl SelectionError {
    /// The error in words.
    pub fn message(&self) -> (r: String)
        ensures
            r@ == selection_error_text(*self),
    {
        match self {
            SelectionError::NoResults => "no eligible torrent results were found".to_string(),
            SelectionError::PromptFailed => "interactive selection failed".to_string(),
            SelectionError::Cancelled => "torrent selection was cancelled".to_string(),
        }
    }
}

/// What the user answered to the list of results.
#[derive(Debug, Clone, Copy, PartialEq, Eq, Structural)]
pub enum PromptAnswer {
    Failed,
    Cancelled,
    Picked(usize),
}

/// What is to be chosen, given how many results there are. The user's answer
/// counts only where the choice is not automatic.
pub open spec fn choice(count: nat, automatic: bool, answer: PromptAnswer) -> Result<
    usize,
    SelectionError,
> {
    if count == 0 {
        Err(SelectionError::NoResults)
    } else if automatic {
        Ok(0)
    } else {
        match answer {
            PromptAnswer::Failed => Err(SelectionError::PromptFailed),
            PromptAnswer::Cancelled => Err(SelectionError::Cancelled),
            PromptAnswer::Picked(index) => Ok(index),
        }
    }
}

/// Chooses a result in a terminal.
#[derive(Debug, Clone, Copy, PartialEq, Eq)]
pub struct TerminalChooser {
    max_title_characters: usize,
}

impl TerminalChooser {
    /// How much of a title is shown.
    pub closed spec fn limit(&self) -> usize {
        self.max_title_characters
    }

    /// A chooser that shows this much of each title.
    pub fn new(max_title_characters: usize) -> (r: TerminalChooser)
        ensures
            r.limit() == max_title_characters,
    {
        TerminalChooser { max_title_characters }
    }

    /// The lines to choose from, one for each result.
    pub fn items(&self, results: &Vec<TorrentResult>) -> (r: Vec<String>)
        ensures
            r@.len() == results@.len(),
            forall|i: int|
                0 <= i < results@.len() ==> (#[trigger] r@[i])@ == result_text(
                    results@[i]@,
                    self.limit(),
                ),
    {
        let mut out: Vec<String> = Vec::new();
        let mut i: usize = 0;
        while i < results.len()
            invariant
                i <= results@.len(),
                out@.len() == i,
                forall|j: int|
                    0 <= j < i ==> (#[trigger] out@[j])@ == result_text(
                        results@[j]@,
                        self.limit(),
                    ),
            decreases results@.len() - i,
        {
            out.push(format_result(&results[i], self.max_title_characters));
            i = i + 1;
        }
        out
    }

    /// Whether the user is to be asked.
    pub fn asks(&self, results: &Vec<TorrentResult>, automatic: bool) -> (r: bool)
        ensures
            r == (results@.len() > 0 && !automatic),
    {
        results.len() > 0 && !automatic
    }

    /// The index of the chosen result: the first where the choice is automatic,
    /// and otherwise what the user answered.
    pub fn select(&self, results: &Vec<TorrentResult>, automatic: bool, answer: PromptAnswer) -> (r:
        Result<usize, SelectionError>)
        ensures
            r == choice(results@.len(), automatic, answer),
    {
        if results.len() == 0 {
            return Err(SelectionError::NoResults);
        }
        if automatic {
            return Ok(0);
        }
        match answer {
            PromptAnswer::Failed => Err(SelectionError::PromptFailed),
            PromptAnswer::Cancelled => Err(SelectionError::Cancelled),
            PromptAnswer::Picked(index) => Ok(index),
        }
    }
}

} // verus!
