//! Laws of searching: what a page says of its results, and how results are ranked.

use crate::browser;
use crate::discovery;
use crate::dom;
use crate::model;
use crate::order;
use crate::plain;
use crate::ranking;
use crate::row_laws;
use crate::search;
use crate::search::ResultState;
use crate::text;
use crate::weburl;
use vstd::prelude::*;

verus! {

// ------------------------------------------------------------------ page state

/// A page says, among its first 400,000 characters and in any case, that nothing
/// was found.
pub open spec fn says_nothing_found(html: Seq<char>) -> bool {
    ||| plain::mentions_early(html, "no results found"@, 400_000)
    ||| plain::mentions_early(html, "no hits. try adding an asterisk"@, 400_000)
    ||| plain::mentions_early(html, "nothing found"@, 400_000)
    ||| plain::mentions_early(html, "0 results"@, 400_000)
}

/// A selector finds an element on a page.
pub open spec fn finds(html: Seq<char>, css: Seq<char>) -> bool {
    dom::dom_select(html, css) matches Some(elements) && elements.len() > 0
}

/// A page has a table or a list of results, a result row, or a magnet link.
pub open spec fn shows_results(html: Seq<char>) -> bool {
    ||| finds(html, "table#searchResult"@)
    ||| finds(html, "table#search-result"@)
    ||| finds(html, "ol#torrents"@)
    ||| finds(html, "ul.search-results"@)
    ||| finds(html, "[data-torrent-row]"@)
    ||| finds(html, "a[href^='magnet:']"@)
}

proof fn empty_marks_are_small()
    ensures
        forall|i: int| 0 <= i < 4 ==> plain::is_small(#[trigger] search::empty_marks()[i]),
{
    reveal_strlit("no results found");
    reveal_strlit("no hits. try adding an asterisk");
    reveal_strlit("nothing found");
    reveal_strlit("0 results");
}

/// A small word occurs in the lowered front of a page exactly if the page mentions
/// it early.
pub proof fn early_mentions_are_marks(html: Seq<char>, word: Seq<char>)
    requires
        plain::is_small(word),
    ensures
        text::occurs(word, discovery::marked_text(html)) <==> plain::mentions_early(
            html,
            word,
            400_000,
        ),
{
    let front = model::first_chars(html, discovery::MAX_MARKER_CHARACTERS as nat);
    plain::mentions_are_occurrences(word, front);
    plain::fronts_mention_early(html, word, 400_000);
}

proof fn empty_marks_are_sayings(html: Seq<char>)
    ensures
        discovery::any_occurs(search::empty_marks(), discovery::marked_text(html))
            <==> says_nothing_found(html),
{
    empty_marks_are_small();
    let marks = search::empty_marks();
    let front = discovery::marked_text(html);
    early_mentions_are_marks(html, marks[0]);
    early_mentions_are_marks(html, marks[1]);
    early_mentions_are_marks(html, marks[2]);
    early_mentions_are_marks(html, marks[3]);
    if says_nothing_found(html) {
        assert(text::occurs(marks[0], front) || text::occurs(marks[1], front) || text::occurs(
            marks[2],
            front,
        ) || text::occurs(marks[3], front));
    }
}

/// A page that says that nothing was found is empty, whatever else it shows; one
/// that does not say so has rows exactly if anything showed that it has results.
pub proof fn sayings_come_before_rows(html: Seq<char>, marked: bool)
    ensures
        search::state_of(html, marked) == ResultState::Empty <==> says_nothing_found(html),
        search::state_of(html, marked) == ResultState::Rows <==> !says_nothing_found(html)
            && marked,
        search::state_of(html, marked) == ResultState::Pending <==> !says_nothing_found(html)
            && !marked,
{
    empty_marks_are_sayings(html);
}

/// The state of a rendered page: empty where it says that nothing was found,
/// whatever selectors match; with rows only where it says no such thing and shows
/// results; and pending where it does neither.
pub proof fn pages_are_told_apart(document: browser::DocumentModel)
    ensures
        search::result_state(document) == ResultState::Empty <==> says_nothing_found(
            document.html,
        ),
        search::result_state(document) == ResultState::Rows <==> !says_nothing_found(
            document.html,
        ) && shows_results(document.html),
        search::result_state(document) == ResultState::Pending <==> !says_nothing_found(
            document.html,
        ) && !shows_results(document.html),
{
    empty_marks_are_sayings(document.html);
    let marks = search::result_marks();
    let html = document.html;
    if shows_results(html) {
        assert(dom::selected(html, marks[0]).len() > 0 || dom::selected(html, marks[1]).len() > 0
            || dom::selected(html, marks[2]).len() > 0 || dom::selected(html, marks[3]).len() > 0
            || dom::selected(html, marks[4]).len() > 0 || dom::selected(html, marks[5]).len() > 0);
    }
}

/// What else a page holds does not make an empty page one with rows: text behind a
/// saying leaves it empty.
pub proof fn text_behind_a_saying_is_ignored(
    url: weburl::UrlModel,
    front: Seq<char>,
    back: Seq<char>,
)
    requires
        says_nothing_found(front),
    ensures
        search::result_state(browser::DocumentModel { url, html: front + back })
            == ResultState::Empty,
{
    let whole = front + back;
    longer_pages_still_mention(front, back, "no results found"@);
    longer_pages_still_mention(front, back, "no hits. try adding an asterisk"@);
    longer_pages_still_mention(front, back, "nothing found"@);
    longer_pages_still_mention(front, back, "0 results"@);
    pages_are_told_apart(browser::DocumentModel { url, html: whole });
}

proof fn longer_pages_still_mention(front: Seq<char>, back: Seq<char>, word: Seq<char>)
    ensures
        plain::mentions_early(front, word, 400_000) ==> plain::mentions_early(
            front + back,
            word,
            400_000,
        ),
{
    if plain::mentions_early(front, word, 400_000) {
        let at = choose|at: int| #[trigger]
            plain::stands(word, front, at) && at + word.len() <= 400_000;
        let whole = front + back;
        assert(plain::stands(word, whole, at)) by {
            assert forall|i: int| 0 <= i < word.len() implies plain::same_letter(
                #[trigger] word[i],
                whole[at + i],
            ) by {
                assert(whole[at + i] == front[at + i]);
            }
        }
    }
}

// --------------------------------------------------------------------- ranking

/// The first result has no fewer seeders than the second; no count is as good as
/// zero.
pub open spec fn has_no_fewer_seeders(first: model::TorrentModel, second: model::TorrentModel) -> bool {
    match (first.seeders, second.seeders) {
        (_, None) => true,
        (None, Some(b)) => b == 0,
        (Some(a), Some(b)) => a >= b,
    }
}

/// Neither result has more seeders than the other.
pub open spec fn seeders_tie(first: model::TorrentModel, second: model::TorrentModel) -> bool {
    has_no_fewer_seeders(first, second) && has_no_fewer_seeders(second, first)
}

/// The name of the first result stands before that of the second, without regard
/// to case.
pub open spec fn name_precedes(first: model::TorrentModel, second: model::TorrentModel) -> bool {
    plain::precedes(text::unicode_lowercase(first.name), text::unicode_lowercase(second.name))
}

/// The names of two results are the same but for case.
pub open spec fn names_tie(first: model::TorrentModel, second: model::TorrentModel) -> bool {
    text::unicode_lowercase(first.name) == text::unicode_lowercase(second.name)
}

proof fn order_is_preference(first: model::TorrentModel, second: model::TorrentModel)
    requires
        !search::result_after()(first, second),
    ensures
        has_no_fewer_seeders(first, second),
        seeders_tie(first, second) ==> name_precedes(first, second) || names_tie(first, second),
        seeders_tie(first, second) && names_tie(first, second) ==> first.magnet.hash
            == second.magnet.hash || plain::precedes(first.magnet.hash, second.magnet.hash),
        seeders_tie(first, second) && names_tie(first, second) && first.magnet.hash
            == second.magnet.hash ==> first.source_host == second.source_host || plain::precedes(
            first.source_host,
            second.source_host,
        ),
{
    plain::order_is_precedence(
        text::unicode_lowercase(first.name),
        text::unicode_lowercase(second.name),
    );
    plain::order_is_precedence(first.magnet.hash, second.magnet.hash);
    plain::order_is_precedence(first.source_host, second.source_host);
    order::lex_order_same(
        order::codes(text::unicode_lowercase(first.name)),
        order::codes(text::unicode_lowercase(second.name)),
    );
    order::lex_order_same(
        order::codes(first.magnet.hash),
        order::codes(second.magnet.hash),
    );
}

/// Results come with their seeders not increasing, however large the counts are;
/// where two have equally many the names decide without regard to case, and where
/// those are the same, the hashes.
pub proof fn more_seeders_come_first(results: Seq<model::TorrentModel>, i: int, j: int)
    requires
        0 <= i < j < search::normalized_results(results).len(),
    ensures
        ({
            let first = search::normalized_results(results)[i];
            let second = search::normalized_results(results)[j];
            &&& second.seeders matches Some(b) ==> b == 0 || (first.seeders matches Some(a) && a
                >= b)
            &&& seeders_tie(first, second) ==> name_precedes(first, second) || (names_tie(
                first,
                second,
            ) && plain::precedes(first.magnet.hash, second.magnet.hash))
        }),
{
    search::normalized_results_are_ranked(results);
    let list = search::normalized_results(results);
    assert(!search::result_after()(list[i], list[j]));
    order_is_preference(list[i], list[j]);
    let hashes = search::hashes(list);
    assert(hashes[i] != hashes[j]);
}

proof fn first_of_a_hash_is_kept(
    results: Seq<model::TorrentModel>,
    after: spec_fn(model::TorrentModel, model::TorrentModel) -> bool,
    k: int,
    i: int,
)
    requires
        ranking::is_ranking(after),
        ranking::in_order(results, after),
        0 <= k < results.len(),
        0 <= i < search::deduplicated(results).len(),
        search::deduplicated(results)[i].magnet.hash == results[k].magnet.hash,
    ensures
        !after(search::deduplicated(results)[i], results[k]),
    decreases results.len(),
{
    let last = results.last();
    let rest = results.drop_last();
    let front = search::deduplicated(rest);
    assert(ranking::in_order(rest, after)) by {
        assert forall|a: int, b: int| 0 <= a < b < rest.len() implies !after(
            #[trigger] rest[a],
            #[trigger] rest[b],
        ) by {
            assert(rest[a] == results[a] && rest[b] == results[b]);
        }
    }
    search::deduplicated_holds(rest);
    search::deduplicated_in_order(rest, after);
    if i < front.len() {
        assert(search::deduplicated(results)[i] == front[i]);
        if k < rest.len() {
            assert(rest[k] == results[k]);
            first_of_a_hash_is_kept(rest, after, k, i);
        } else {
            assert(rest.contains(front[i]));
            let m = choose|m: int| 0 <= m < rest.len() && rest[m] == front[i];
            assert(!after(results[m], results[k]));
        }
    } else {
        if k < rest.len() {
            assert(rest[k] == results[k]);
            assert(search::hashes(front).contains(rest[k].magnet.hash));
            assert(false);
        }
        assert(after(last, last) ==> !after(last, last));
    }
}

/// Of the results of one torrent the best stays: whatever was found of a torrent,
/// the result that is shown for it has no fewer seeders, then the earlier name, then
/// the earlier host, and it is one of those that were found.
pub proof fn the_best_of_a_torrent_stays(results: Seq<model::TorrentModel>, k: int)
    requires
        0 <= k < results.len(),
    ensures
        exists|i: int|
            0 <= i < search::normalized_results(results).len() && (
            #[trigger] search::normalized_results(results)[i]).magnet.hash
                == results[k].magnet.hash,
        forall|i: int|
            0 <= i < search::normalized_results(results).len() && (
            #[trigger] search::normalized_results(results)[i]).magnet.hash
                == results[k].magnet.hash ==> {
                let kept = search::normalized_results(results)[i];
                &&& results.contains(kept)
                &&& has_no_fewer_seeders(kept, results[k])
                &&& seeders_tie(kept, results[k]) ==> name_precedes(kept, results[k]) || names_tie(
                    kept,
                    results[k],
                )
                &&& seeders_tie(kept, results[k]) && names_tie(kept, results[k])
                    ==> kept.source_host == results[k].source_host || plain::precedes(
                    kept.source_host,
                    results[k].source_host,
                )
            },
{
    let sorted = ranking::ranked(results, search::result_after());
    let list = search::normalized_results(results);
    search::normalized_results_are_ranked(results);
    search::result_order_is_ranking();
    ranking::ranked_in_order(results, search::result_after());
    search::ranked_elements(results, results[k]);
    assert(results.contains(results[k]));
    let m = choose|m: int| 0 <= m < sorted.len() && sorted[m] == results[k];
    assert(search::hashes(list).contains(results[k].magnet.hash));
    let w = choose|w: int|
        0 <= w < search::hashes(list).len() && search::hashes(list)[w] == results[k].magnet.hash;
    assert(list[w].magnet.hash == results[k].magnet.hash);
    assert forall|i: int|
        0 <= i < list.len() && (#[trigger] list[i]).magnet.hash == results[k].magnet.hash implies {
        let kept = list[i];
        &&& results.contains(kept)
        &&& has_no_fewer_seeders(kept, results[k])
        &&& seeders_tie(kept, results[k]) ==> name_precedes(kept, results[k]) || names_tie(
            kept,
            results[k],
        )
        &&& seeders_tie(kept, results[k]) && names_tie(kept, results[k]) ==> kept.source_host
            == results[k].source_host || plain::precedes(kept.source_host, results[k].source_host)
    } by {
        first_of_a_hash_is_kept(sorted, search::result_after(), m, i);
        order_is_preference(list[i], results[k]);
    }
}

/// Two results tie in everything by which results are ordered.
pub open spec fn ties(first: model::TorrentModel, second: model::TorrentModel) -> bool {
    seeders_tie(first, second) && names_tie(first, second) && first.magnet.hash
        == second.magnet.hash && first.source_host == second.source_host
}

proof fn ties_are_in_order(first: model::TorrentModel, second: model::TorrentModel)
    requires
        ties(first, second),
    ensures
        !search::result_after()(first, second),
{
    order::lex_order_same(
        order::codes(text::unicode_lowercase(first.name)),
        order::codes(text::unicode_lowercase(second.name)),
    );
    order::lex_order_same(order::codes(first.magnet.hash), order::codes(second.magnet.hash));
    order::lex_order_same(order::codes(first.source_host), order::codes(second.source_host));
}

proof fn placed_duplicates_vanish(
    list: Seq<model::TorrentModel>,
    x: model::TorrentModel,
    after: spec_fn(model::TorrentModel, model::TorrentModel) -> bool,
    p: int,
)
    requires
        0 <= p < list.len(),
        list[p].magnet.hash == x.magnet.hash,
        !after(list[p], x),
    ensures
        search::deduplicated(ranking::placed(list, x, after)) == search::deduplicated(list),
    decreases list.len(),
{
    let there = ranking::placed(list, x, after);
    if after(list.last(), x) {
        let front = list.drop_last();
        assert(front[p] == list[p]);
        placed_duplicates_vanish(front, x, after, p);
        assert(there.drop_last() =~= ranking::placed(front, x, after));
        assert(there.last() == list.last());
    } else {
        assert(there.drop_last() =~= list);
        assert(there.last() == x);
        search::deduplicated_holds(list);
        assert(search::hashes(search::deduplicated(list)).contains(list[p].magnet.hash));
    }
}

/// Of results that tie, the one that came first stays: one more that ties with any
/// of them changes nothing, whatever else it says.
pub proof fn the_first_of_equals_stays(
    results: Seq<model::TorrentModel>,
    next: model::TorrentModel,
    k: int,
)
    requires
        0 <= k < results.len(),
        ties(results[k], next),
    ensures
        search::normalized_results(results.push(next)) == search::normalized_results(results),
{
    let after = search::result_after();
    let list = ranking::ranked(results, after);
    let all = results.push(next);
    ties_are_in_order(results[k], next);
    search::ranked_elements(results, results[k]);
    assert(results.contains(results[k]));
    assert(list.contains(results[k]));
    let p = choose|p: int| 0 <= p < list.len() && list[p] == results[k];
    placed_duplicates_vanish(list, next, after, p);
    assert(all.drop_last() =~= results);
    assert(all.last() == next);
    assert(ranking::ranked(all, after) == ranking::placed(list, next, after));
}

// ----------------------------------------------------------------------- pages

/// The first 500 rows that a selector finds on a page.
pub open spec fn rows_of(document: browser::DocumentModel, css: Seq<char>) -> Seq<dom::BranchModel> {
    row_laws::front(
        dom::selected_within(document.html, css, search::row_selectors()),
        500,
    )
}

/// A row that a selector finds on a page is a result.
pub open spec fn gives_results(document: browser::DocumentModel, css: Seq<char>) -> bool {
    exists|i: int|
        0 <= i < rows_of(document, css).len() && search::row_result(
            #[trigger] rows_of(document, css)[i],
            document.url,
        ) is Some
}

/// The selector whose rows are taken: the first that gives results among the table
/// of results, its other spelling, the list of torrents, the list of results, and
/// marked rows; and where none of them does, whatever may be a row.
pub open spec fn is_taken(document: browser::DocumentModel, css: Seq<char>) -> bool {
    let first = "table#searchResult tr"@;
    let second = "table#search-result tr"@;
    let third = "ol#torrents > li"@;
    let fourth = "ul.search-results > li"@;
    let fifth = "[data-torrent-row]"@;
    let any = "tr, li, article, div.result, div.torrent"@;
    ||| css == first && gives_results(document, first)
    ||| css == second && gives_results(document, second) && !gives_results(document, first)
    ||| css == third && gives_results(document, third) && !gives_results(document, second)
        && !gives_results(document, first)
    ||| css == fourth && gives_results(document, fourth) && !gives_results(document, third)
        && !gives_results(document, second) && !gives_results(document, first)
    ||| css == fifth && gives_results(document, fifth) && !gives_results(document, fourth)
        && !gives_results(document, third) && !gives_results(document, second) && !gives_results(
        document,
        first,
    )
    ||| css == any && !gives_results(document, fifth) && !gives_results(document, fourth)
        && !gives_results(document, third) && !gives_results(document, second) && !gives_results(
        document,
        first,
    )
}

proof fn rows_give_their_results(rows: Seq<dom::BranchModel>, page: weburl::UrlModel)
    ensures
        forall|i: int|
            0 <= i < rows.len() ==> (search::row_result(#[trigger] rows[i], page) matches Some(result)
                ==> search::rows_results(rows, page).contains(result)),
        forall|k: int|
            0 <= k < search::rows_results(rows, page).len() ==> exists|i: int|
                0 <= i < rows.len() && search::row_result(#[trigger] rows[i], page) == Some(
                    #[trigger] search::rows_results(rows, page)[k],
                ),
    decreases rows.len(),
{
    let all = search::rows_results(rows, page);
    if rows.len() > 0 {
        let rest = rows.drop_last();
        let before = search::rows_results(rest, page);
        rows_give_their_results(rest, page);
        assert forall|i: int| 0 <= i < rows.len() implies (search::row_result(
            #[trigger] rows[i],
            page,
        ) matches Some(result) ==> all.contains(result)) by {
            if let Some(result) = search::row_result(rows[i], page) {
                if i < rest.len() {
                    assert(rest[i] == rows[i]);
                    let k = choose|k: int| 0 <= k < before.len() && before[k] == result;
                    assert(all[k] == result);
                } else {
                    assert(all[before.len() as int] == result);
                }
            }
        }
        assert forall|k: int| 0 <= k < all.len() implies exists|i: int|
            0 <= i < rows.len() && search::row_result(#[trigger] rows[i], page) == Some(
                #[trigger] all[k],
            ) by {
            if k < before.len() {
                assert(all[k] == before[k]);
                let i = choose|i: int|
                    0 <= i < rest.len() && search::row_result(#[trigger] rest[i], page) == Some(
                        before[k],
                    );
                assert(rows[i] == rest[i]);
            } else {
                assert(search::row_result(rows[rows.len() - 1], page) == Some(all[k]));
            }
        }
    }
}

proof fn selected_rows_are_rows(document: browser::DocumentModel, css: Seq<char>)
    ensures
        search::selected_results(document, css) == search::rows_results(
            rows_of(document, css),
            document.url,
        ),
        search::selected_results(document, css).len() > 0 <==> gives_results(document, css),
{
    let found = dom::selected_within(document.html, css, search::row_selectors());
    assert(discovery::bounded(found, 500) =~= row_laws::front(found, 500));
    let rows = rows_of(document, css);
    let all = search::rows_results(rows, document.url);
    rows_give_their_results(rows, document.url);
    if gives_results(document, css) {
        let i = choose|i: int|
            0 <= i < rows.len() && search::row_result(#[trigger] rows[i], document.url) is Some;
        assert(all.contains(search::row_result(rows[i], document.url)->0));
    }
    if all.len() > 0 {
        let i = choose|i: int|
            0 <= i < rows.len() && search::row_result(#[trigger] rows[i], document.url) == Some(
                all[0],
            );
        assert(search::row_result(rows_of(document, css)[i], document.url) is Some);
    }
}

#[verifier::rlimit(40)]
proof fn taken_results_are_first(document: browser::DocumentModel, css: Seq<char>)
    requires
        is_taken(document, css),
    ensures
        search::first_results(document, search::known_rows()) == search::rows_results(
            rows_of(document, css),
            document.url,
        ),
{
    let all = search::known_rows();
    selected_rows_are_rows(document, all[0]);
    selected_rows_are_rows(document, all[1]);
    selected_rows_are_rows(document, all[2]);
    selected_rows_are_rows(document, all[3]);
    selected_rows_are_rows(document, all[4]);
    selected_rows_are_rows(document, "tr, li, article, div.result, div.torrent"@);
    let a = all.drop_first();
    let b = a.drop_first();
    let c = b.drop_first();
    let d = c.drop_first();
    let e = d.drop_first();
    assert(a[0] == all[1] && b[0] == all[2] && c[0] == all[3] && d[0] == all[4]);
    assert(e.len() == 0);
    assert(search::first_results(document, e) == search::selected_results(
        document,
        "tr, li, article, div.result, div.torrent"@,
    ));
    assert(search::first_results(document, d) == if gives_results(document, all[4]) {
        search::selected_results(document, all[4])
    } else {
        search::first_results(document, e)
    });
    assert(search::first_results(document, c) == if gives_results(document, all[3]) {
        search::selected_results(document, all[3])
    } else {
        search::first_results(document, d)
    });
    assert(search::first_results(document, b) == if gives_results(document, all[2]) {
        search::selected_results(document, all[2])
    } else {
        search::first_results(document, c)
    });
    assert(search::first_results(document, a) == if gives_results(document, all[1]) {
        search::selected_results(document, all[1])
    } else {
        search::first_results(document, b)
    });
}

/// The results of a page are those of the rows that are taken: each row that is a
/// result has its torrent among them, and each of them is the result of such a row.
pub proof fn pages_give_the_results_of_their_rows(
    document: browser::DocumentModel,
    css: Seq<char>,
)
    requires
        is_taken(document, css),
    ensures
        forall|i: int|
            0 <= i < rows_of(document, css).len() ==> (search::row_result(
                #[trigger] rows_of(document, css)[i],
                document.url,
            ) matches Some(result) ==> search::hashes(search::page_results(document)).contains(
                result.magnet.hash,
            )),
        forall|k: int|
            0 <= k < search::page_results(document).len() ==> exists|i: int|
                0 <= i < rows_of(document, css).len() && search::row_result(
                    #[trigger] rows_of(document, css)[i],
                    document.url,
                ) == Some(#[trigger] search::page_results(document)[k]),
{
    let rows = rows_of(document, css);
    let found = search::rows_results(rows, document.url);
    let page = search::page_results(document);
    taken_results_are_first(document, css);
    rows_give_their_results(rows, document.url);
    search::normalized_results_are_ranked(found);
    assert forall|i: int| 0 <= i < rows.len() implies (search::row_result(
        #[trigger] rows[i],
        document.url,
    ) matches Some(result) ==> search::hashes(page).contains(result.magnet.hash)) by {
        if let Some(result) = search::row_result(rows[i], document.url) {
            let k = choose|k: int| 0 <= k < found.len() && found[k] == result;
            assert(search::hashes(page).contains(found[k].magnet.hash));
        }
    }
    assert forall|k: int| 0 <= k < page.len() implies exists|i: int|
        0 <= i < rows.len() && search::row_result(#[trigger] rows[i], document.url) == Some(
            #[trigger] page[k],
        ) by {
        assert(found.contains(page[k]));
        let m = choose|m: int| 0 <= m < found.len() && found[m] == page[k];
        let i = choose|i: int|
            0 <= i < rows.len() && search::row_result(#[trigger] rows[i], document.url) == Some(
                found[m],
            );
        assert(search::row_result(rows[i], document.url) == Some(page[k]));
    }
}

/// What a selector finds with what others find below: the element and its lists
/// belong together.
pub proof fn rows_keep_what_is_below_them(
    html: Seq<char>,
    css: Seq<char>,
    inner: Seq<Seq<char>>,
    i: int,
)
    requires
        dom::dom_select(html, css) is Some,
        dom::dom_select_below(html, css, inner) is Some,
        0 <= i < dom::dom_select(html, css)->0.len(),
        i < dom::dom_select_below(html, css, inner)->0.len(),
    ensures
        i < dom::selected_within(html, css, inner).len(),
        dom::selected_within(html, css, inner)[i].element == dom::dom_select(html, css)->0[i],
        dom::selected_within(html, css, inner)[i].parts == dom::dom_select_below(
            html,
            css,
            inner,
        )->0[i],
{
}

} // verus!
