//! What laws are written in: words in a text whatever their case, the first
//! difference of two texts, and the first of several elements that says something.

use crate::order;
use crate::order::Order;
use crate::text;
use vstd::prelude::*;

verus! {

/// Two characters that are the same but for the case of an ASCII letter.
pub open spec fn same_letter(c: char, d: char) -> bool {
    ||| c == d
    ||| 'A' <= c && c <= 'Z' && d as int == c as int + 32
    ||| 'A' <= d && d <= 'Z' && c as int == d as int + 32
}

/// Two texts that are the same but for the case of ASCII letters.
pub open spec fn same_word(left: Seq<char>, right: Seq<char>) -> bool {
    left.len() == right.len() && forall|i: int|
        0 <= i < left.len() ==> same_letter(#[trigger] left[i], right[i])
}

/// A word stands in a text at a position, in any case.
pub open spec fn stands(word: Seq<char>, hay: Seq<char>, at: int) -> bool {
    0 <= at && at + word.len() <= hay.len() && forall|i: int|
        0 <= i < word.len() ==> same_letter(#[trigger] word[i], hay[at + i])
}

/// A text mentions a word, in any case.
pub open spec fn mentions(hay: Seq<char>, word: Seq<char>) -> bool {
    exists|at: int| #[trigger] stands(word, hay, at)
}

/// A text mentions a word that ends within its first `limit` characters.
pub open spec fn mentions_early(hay: Seq<char>, word: Seq<char>, limit: int) -> bool {
    exists|at: int| #[trigger] stands(word, hay, at) && at + word.len() <= limit
}

/// A text without capital ASCII letters.
pub open spec fn is_small(word: Seq<char>) -> bool {
    forall|i: int| 0 <= i < word.len() ==> !('A' <= #[trigger] word[i] && word[i] <= 'Z')
}

/// The first text stands before the second: at the first difference its character
/// is the smaller one, or it is a proper beginning.
pub open spec fn precedes(left: Seq<char>, right: Seq<char>) -> bool {
    exists|at: int| #[trigger] differs_first(left, right, at)
}

/// The two texts agree up to a position, and there the first has the smaller
/// character or has ended.
pub open spec fn differs_first(left: Seq<char>, right: Seq<char>, at: int) -> bool {
    &&& 0 <= at <= left.len()
    &&& at < right.len()
    &&& left.take(at) == right.take(at)
    &&& at < left.len() ==> left[at] < right[at]
}

/// The element at a place is the first of which `says` tells something.
pub open spec fn is_first<E, T>(elements: Seq<E>, says: spec_fn(E) -> Option<T>, at: int) -> bool {
    0 <= at < elements.len() && says(elements[at]) is Some && forall|i: int|
        0 <= i < at ==> #[trigger] says(elements[i]) is None
}

/// What the first element says that says anything.
pub open spec fn heard<E, T>(elements: Seq<E>, says: spec_fn(E) -> Option<T>) -> Option<T> {
    if exists|at: int| is_first(elements, says, at) {
        says(elements[choose|at: int| is_first(elements, says, at)])
    } else {
        None
    }
}

/// The first value that is told is the one that is taken; there is none only if
/// none is told.
pub open spec fn first_told<T>(sources: Seq<Option<T>>, taken: Option<T>) -> bool {
    &&& forall|i: int|
        0 <= i < sources.len() && (#[trigger] sources[i]) is Some && (forall|j: int|
            0 <= j < i ==> (#[trigger] sources[j]) is None) ==> taken == sources[i]
    &&& (forall|i: int| 0 <= i < sources.len() ==> (#[trigger] sources[i]) is None) ==> taken
        is None
}

/// A small letter is the lowered form of a character exactly if the two are the
/// same but for case.
proof fn lowering_keeps_letters(c: char, small: char)
    requires
        !('A' <= small && small <= 'Z'),
    ensures
        text::lower_char(c) == small <==> same_letter(small, c),
{
}

/// Lowered texts are equal exactly if the texts are the same but for case.
pub proof fn same_words_lower_alike(left: Seq<char>, right: Seq<char>)
    ensures
        text::lower(left) == text::lower(right) <==> same_word(left, right),
{
    if same_word(left, right) {
        assert(text::lower(left) =~= text::lower(right)) by {
            assert forall|i: int| 0 <= i < left.len() implies text::lower(left)[i] == text::lower(
                right,
            )[i] by {
                assert(same_letter(left[i], right[i]));
            }
        }
    }
    if text::lower(left) == text::lower(right) {
        assert(text::lower(left).len() == left.len());
        assert(text::lower(right).len() == right.len());
        assert forall|i: int| 0 <= i < left.len() implies same_letter(#[trigger] left[i], right[i]) by {
            assert(text::lower(left)[i] == text::lower(right)[i]);
        }
    }
}

/// A word without capitals is its own lowered form.
pub proof fn small_words_stay(word: Seq<char>)
    requires
        is_small(word),
    ensures
        text::lower(word) == word,
{
    assert(text::lower(word) =~= word);
}

proof fn stands_in_lowered(word: Seq<char>, hay: Seq<char>, at: int)
    requires
        is_small(word),
    ensures
        text::stands_at(word, text::lower(hay), at) <==> stands(word, hay, at),
{
    let lowered = text::lower(hay);
    assert(lowered.len() == hay.len());
    if text::stands_at(word, lowered, at) {
        assert forall|i: int| 0 <= i < word.len() implies same_letter(
            #[trigger] word[i],
            hay[at + i],
        ) by {
            assert(lowered.subrange(at, at + word.len())[i] == word[i]);
            lowering_keeps_letters(hay[at + i], word[i]);
        }
    }
    if stands(word, hay, at) {
        assert forall|i: int| 0 <= i < word.len() implies lowered.subrange(at, at + word.len())[i]
            == word[i] by {
            assert(same_letter(word[i], hay[at + i]));
            lowering_keeps_letters(hay[at + i], word[i]);
        }
        assert(lowered.subrange(at, at + word.len()) =~= word);
    }
}

/// A small word occurs in a lowered text exactly if the text mentions it.
pub proof fn mentions_are_occurrences(word: Seq<char>, hay: Seq<char>)
    requires
        is_small(word),
    ensures
        text::occurs(word, text::lower(hay)) <==> mentions(hay, word),
{
    if text::occurs(word, text::lower(hay)) {
        let at = choose|at: int| #[trigger] text::stands_at(word, text::lower(hay), at);
        stands_in_lowered(word, hay, at);
    }
    if mentions(hay, word) {
        let at = choose|at: int| #[trigger] stands(word, hay, at);
        stands_in_lowered(word, hay, at);
    }
}

/// A text mentions a word early exactly if its front mentions it.
pub proof fn fronts_mention_early(hay: Seq<char>, word: Seq<char>, limit: int)
    requires
        0 <= limit,
    ensures
        mentions_early(hay, word, limit) <==> mentions(
            if limit < hay.len() {
                hay.take(limit)
            } else {
                hay
            },
            word,
        ),
{
    let front = if limit < hay.len() {
        hay.take(limit)
    } else {
        hay
    };
    if mentions_early(hay, word, limit) {
        let at = choose|at: int| #[trigger] stands(word, hay, at) && at + word.len() <= limit;
        assert(stands(word, front, at)) by {
            assert forall|i: int| 0 <= i < word.len() implies same_letter(
                #[trigger] word[i],
                front[at + i],
            ) by {
                assert(front[at + i] == hay[at + i]);
            }
        }
    }
    if mentions(front, word) {
        let at = choose|at: int| #[trigger] stands(word, front, at);
        assert(stands(word, hay, at)) by {
            assert forall|i: int| 0 <= i < word.len() implies same_letter(
                #[trigger] word[i],
                hay[at + i],
            ) by {
                assert(front[at + i] == hay[at + i]);
            }
        }
    }
}

/// What a part mentions, the whole mentions.
pub proof fn wholes_mention(front: Seq<char>, middle: Seq<char>, back: Seq<char>, word: Seq<char>)
    requires
        mentions(middle, word),
    ensures
        mentions(front + middle + back, word),
{
    let at = choose|at: int| #[trigger] stands(word, middle, at);
    let whole = front + middle + back;
    assert(stands(word, whole, front.len() + at)) by {
        assert forall|i: int| 0 <= i < word.len() implies same_letter(
            #[trigger] word[i],
            whole[front.len() + at + i],
        ) by {
            assert(whole[front.len() + at + i] == middle[at + i]);
        }
    }
}

/// The order of texts by code points says which one stands before the other.
pub proof fn order_is_precedence(left: Seq<char>, right: Seq<char>)
    ensures
        order::text_order(left, right) == Order::Before ==> precedes(left, right),
        order::text_order(left, right) == Order::After ==> precedes(right, left),
        order::text_order(left, right) == Order::Same ==> left == right,
    decreases left.len(),
{
    if left.len() == 0 || right.len() == 0 {
        assert(left.take(0) =~= right.take(0));
        if right.len() > 0 {
            assert(differs_first(left, right, 0));
        } else if left.len() > 0 {
            assert(differs_first(right, left, 0));
        } else {
            assert(left =~= right);
        }
    } else {
        let a = left.drop_first();
        let b = right.drop_first();
        assert(order::codes(left).drop_first() =~= order::codes(a));
        assert(order::codes(right).drop_first() =~= order::codes(b));
        assert(order::codes(left)[0] == left[0] as int);
        assert(order::codes(right)[0] == right[0] as int);
        order_is_precedence(a, b);
        assert(left.take(0) =~= right.take(0));
        if left[0] < right[0] {
            assert(differs_first(left, right, 0));
        } else if right[0] < left[0] {
            assert(differs_first(right, left, 0));
        } else if order::text_order(a, b) == Order::Before {
            let at = choose|at: int| #[trigger] differs_first(a, b, at);
            later_difference(left, right, at);
        } else if order::text_order(a, b) == Order::After {
            let at = choose|at: int| #[trigger] differs_first(b, a, at);
            later_difference(right, left, at);
        } else {
            assert(left =~= seq![left[0]] + a);
            assert(right =~= seq![right[0]] + b);
        }
    }
}

/// A difference behind an equal first character.
proof fn later_difference(left: Seq<char>, right: Seq<char>, at: int)
    requires
        left.len() > 0,
        right.len() > 0,
        left[0] == right[0],
        differs_first(left.drop_first(), right.drop_first(), at),
    ensures
        differs_first(left, right, at + 1),
{
    let a = left.drop_first();
    let b = right.drop_first();
    assert(left.take(at + 1) =~= right.take(at + 1)) by {
        assert forall|i: int| 0 <= i < at + 1 implies left[i] == right[i] by {
            if i > 0 {
                assert(a.take(at)[i - 1] == b.take(at)[i - 1]);
            }
        }
    }
    if at + 1 < left.len() {
        assert(left[at + 1] == a[at] && right[at + 1] == b[at]);
    }
}

/// What is heard first: the first element counts before the rest.
pub proof fn first_is_heard_first<E, T>(elements: Seq<E>, says: spec_fn(E) -> Option<T>)
    ensures
        elements.len() == 0 ==> heard(elements, says) is None,
        elements.len() > 0 && says(elements[0]) is Some ==> heard(elements, says) == says(
            elements[0],
        ),
        elements.len() > 0 && says(elements[0]) is None ==> heard(elements, says) == heard(
            elements.drop_first(),
            says,
        ),
{
    if elements.len() > 0 {
        let rest = elements.drop_first();
        if says(elements[0]) is Some {
            assert(is_first(elements, says, 0));
            let at = choose|at: int| is_first(elements, says, at);
            if at > 0 {
                assert(says(elements[0]) is None);
            }
        } else {
            if exists|at: int| is_first(elements, says, at) {
                let at = choose|at: int| is_first(elements, says, at);
                assert(rest[at - 1] == elements[at]);
                assert(is_first(rest, says, at - 1)) by {
                    assert forall|i: int| 0 <= i < at - 1 implies #[trigger] says(rest[i]) is None by {
                        assert(rest[i] == elements[i + 1]);
                    }
                }
                let other = choose|k: int| is_first(rest, says, k);
                if other < at - 1 {
                    assert(says(rest[other]) is None);
                } else if other > at - 1 {
                    assert(says(rest[at - 1]) is None);
                }
            } else if exists|k: int| is_first(rest, says, k) {
                let k = choose|k: int| is_first(rest, says, k);
                assert(is_first(elements, says, k + 1)) by {
                    assert(rest[k] == elements[k + 1]);
                    assert forall|i: int| 0 <= i < k + 1 implies #[trigger] says(elements[i])
                        is None by {
                        if i > 0 {
                            assert(says(rest[i - 1]) is None);
                        }
                    }
                }
            }
        }
    }
}

} // verus!
