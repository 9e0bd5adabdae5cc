//! Laws of result rows: where each part of a result is read from.

use crate::discovery;
use crate::dom;
use crate::model;
use crate::plain;
use crate::search;
use crate::text;
use crate::weburl;
use vstd::prelude::*;

verus! {

// ------------------------------------------------------------ what is looked at

/// The elements that a selector finds below a row.
pub open spec fn below(row: dom::BranchModel, css: Seq<char>) -> Seq<dom::ElementModel> {
    row.parts[search::row_selectors().index_of(css)]
}

/// The first elements, at most `limit`.
pub open spec fn front<T>(items: Seq<T>, limit: int) -> Seq<T> {
    if items.len() > limit {
        items.take(limit)
    } else {
        items
    }
}

/// The count that the text of an element is.
pub open spec fn text_count() -> spec_fn(dom::ElementModel) -> Option<u64> {
    |e: dom::ElementModel| search::count_in(e.spaced_text())
}

/// The count that an attribute of an element is.
pub open spec fn named_count(name: Seq<char>) -> spec_fn(dom::ElementModel) -> Option<u64> {
    |e: dom::ElementModel|
        match e.attr(name) {
            Some(value) => search::count_in(value),
            None => None,
        }
}

/// The size in the text of an element, which must have a unit.
pub open spec fn text_size() -> spec_fn(dom::ElementModel) -> Option<u64> {
    |e: dom::ElementModel| search::size_in(e.spaced_text(), false)
}

/// The size that an attribute of an element is, possibly a plain count of bytes.
pub open spec fn named_size(name: Seq<char>) -> spec_fn(dom::ElementModel) -> Option<u64> {
    |e: dom::ElementModel|
        match e.attr(name) {
            Some(value) => search::size_in(value, true),
            None => None,
        }
}

/// A text as it is shown, where anything of it can be.
pub open spec fn presentable(words: Seq<char>, limit: nat) -> Option<Seq<char>> {
    let safe = model::sanitized(words, limit);
    if safe.len() > 0 {
        Some(safe)
    } else {
        None
    }
}

/// The title that an element gives: by `data-title`, else by `data-name`, else by
/// its text, within 512 characters.
pub open spec fn title() -> spec_fn(dom::ElementModel) -> Option<Seq<char>> {
    |e: dom::ElementModel|
        presentable(
            match (e.attr("data-title"@), e.attr("data-name"@)) {
                (Some(words), _) => words,
                (None, Some(words)) => words,
                (None, None) => e.spaced_text(),
            },
            512,
        )
}

/// The category that an element names, within 128 characters.
pub open spec fn label() -> spec_fn(dom::ElementModel) -> Option<Seq<char>> {
    |e: dom::ElementModel| presentable(e.spaced_text(), 128)
}

/// What an anchor calls the category that it leads to, if it leads to one: its
/// address mentions `/browse/` or `/category/`.
pub open spec fn category_of() -> spec_fn(dom::ElementModel) -> Option<Option<Seq<char>>> {
    |e: dom::ElementModel|
        match e.attr("href"@) {
            Some(href) => if plain::mentions(href, "/browse/"@) || plain::mentions(
                href,
                "/category/"@,
            ) {
                Some(presentable(e.spaced_text(), 128))
            } else {
                None
            },
            None => None,
        }
}

/// The magnet link that an anchor is.
pub open spec fn magnet_of() -> spec_fn(dom::ElementModel) -> Option<model::MagnetModel> {
    |e: dom::ElementModel|
        match e.attr("href"@) {
            Some(href) => match model::magnet_outcome(href) {
                Ok(magnet) => Some(magnet),
                Err(_) => None,
            },
            None => None,
        }
}

/// The count in the cell that is `back` cells from the end of the first 32.
pub open spec fn count_from_end(row: dom::BranchModel, back: int) -> Option<u64> {
    let cells = front(below(row, "td"@), 32);
    if cells.len() >= back {
        search::count_in(cells[cells.len() - back].spaced_text())
    } else {
        None
    }
}

// ------------------------------------------------------------- first and heard

proof fn first_count_is_heard(elements: Seq<dom::ElementModel>)
    ensures
        search::first_count(elements, None) == plain::heard(elements, text_count()),
    decreases elements.len(),
{
    plain::first_is_heard_first(elements, text_count());
    if elements.len() > 0 {
        first_count_is_heard(elements.drop_first());
    }
}

proof fn first_named_count_is_heard(elements: Seq<dom::ElementModel>, name: Seq<char>)
    ensures
        search::first_count(elements, Some(name)) == plain::heard(elements, named_count(name)),
    decreases elements.len(),
{
    plain::first_is_heard_first(elements, named_count(name));
    if elements.len() > 0 {
        first_named_count_is_heard(elements.drop_first(), name);
    }
}

proof fn first_size_is_heard(elements: Seq<dom::ElementModel>)
    ensures
        search::first_size(elements, None) == plain::heard(elements, text_size()),
    decreases elements.len(),
{
    plain::first_is_heard_first(elements, text_size());
    if elements.len() > 0 {
        first_size_is_heard(elements.drop_first());
    }
}

proof fn first_named_size_is_heard(elements: Seq<dom::ElementModel>, name: Seq<char>)
    ensures
        search::first_size(elements, Some(name)) == plain::heard(elements, named_size(name)),
    decreases elements.len(),
{
    plain::first_is_heard_first(elements, named_size(name));
    if elements.len() > 0 {
        first_named_size_is_heard(elements.drop_first(), name);
    }
}

proof fn first_title_is_heard(elements: Seq<dom::ElementModel>)
    ensures
        search::first_title(elements) == plain::heard(elements, title()),
    decreases elements.len(),
{
    plain::first_is_heard_first(elements, title());
    if elements.len() > 0 {
        first_title_is_heard(elements.drop_first());
    }
}

proof fn first_label_is_heard(elements: Seq<dom::ElementModel>)
    ensures
        search::first_label(elements) == plain::heard(elements, label()),
    decreases elements.len(),
{
    plain::first_is_heard_first(elements, label());
    if elements.len() > 0 {
        first_label_is_heard(elements.drop_first());
    }
}

proof fn category_anchors_mention(anchor: dom::ElementModel)
    ensures
        search::is_category_anchor(anchor) <==> category_of()(anchor) is Some,
{
    reveal_strlit("/browse/");
    reveal_strlit("/category/");
    if let Some(href) = anchor.attr("href"@) {
        plain::mentions_are_occurrences("/browse/"@, href);
        plain::mentions_are_occurrences("/category/"@, href);
    }
}

proof fn first_category_is_heard(anchors: Seq<dom::ElementModel>)
    ensures
        search::category_link(anchors) == (match plain::heard(anchors, category_of()) {
            Some(name) => name,
            None => None,
        }),
    decreases anchors.len(),
{
    plain::first_is_heard_first(anchors, category_of());
    if anchors.len() > 0 {
        category_anchors_mention(anchors[0]);
        first_category_is_heard(anchors.drop_first());
    }
}

proof fn first_magnet_is_heard(anchors: Seq<dom::ElementModel>)
    requires
        forall|i: int| 0 <= i < anchors.len() ==> (#[trigger] anchors[i]).attr("href"@) is Some,
    ensures
        search::first_magnet(anchors) == plain::heard(anchors, magnet_of()),
    decreases anchors.len(),
{
    plain::first_is_heard_first(anchors, magnet_of());
    if anchors.len() > 0 {
        let rest = anchors.drop_first();
        assert forall|i: int| 0 <= i < rest.len() implies (#[trigger] rest[i]).attr("href"@)
            is Some by {
            assert(rest[i] == anchors[i + 1]);
        }
        first_magnet_is_heard(rest);
    }
}

/// A link without an address ends the search for a magnet link: none is found behind
/// it.
pub proof fn links_without_an_address_end_the_search(anchors: Seq<dom::ElementModel>, at: int)
    requires
        0 <= at < anchors.len(),
        anchors[at].attr("href"@) is None,
        forall|i: int| 0 <= i < at ==> magnet_of()(#[trigger] anchors[i]) is None,
    ensures
        search::first_magnet(anchors) is None,
    decreases at,
{
    if at > 0 {
        assert(magnet_of()(anchors[0]) is None);
        let rest = anchors.drop_first();
        assert(rest[at - 1] == anchors[at]);
        assert forall|i: int| 0 <= i < at - 1 implies magnet_of()(#[trigger] rest[i]) is None by {
            assert(rest[i] == anchors[i + 1]);
        }
        links_without_an_address_end_the_search(rest, at - 1);
    }
}

/// Of four values the first that is there is the one that is told first.
proof fn told_of_four<T>(
    a: Option<T>,
    b: Option<T>,
    c: Option<T>,
    d: Option<T>,
)
    ensures
        plain::first_told(
            seq![a, b, c, d],
            search::either(a, search::either(b, search::either(c, d))),
        ),
{
}

/// Of eight values the first that is there is the one that is told first.
proof fn told_of_eight<T>(
    a: Option<T>,
    b: Option<T>,
    c: Option<T>,
    d: Option<T>,
    e: Option<T>,
    f: Option<T>,
    g: Option<T>,
    h: Option<T>,
)
    ensures
        plain::first_told(
            seq![a, b, c, d, e, f, g, h],
            search::either(a, search::either(b, search::either(c, search::either(d, search::either(e, search::either(f, search::either(g, h))))))),
        ),
{
}

/// Of nine values the first that is there is the one that is told first.
proof fn told_of_nine<T>(
    a: Option<T>,
    b: Option<T>,
    c: Option<T>,
    d: Option<T>,
    e: Option<T>,
    f: Option<T>,
    g: Option<T>,
    h: Option<T>,
    i: Option<T>,
)
    ensures
        plain::first_told(
            seq![a, b, c, d, e, f, g, h, i],
            search::either(a, search::either(b, search::either(c, search::either(d, search::either(e, search::either(f, search::either(g, search::either(h, i)))))))),
        ),
{
}

/// Of eleven values the first that is there is the one that is told first.
proof fn told_of_eleven<T>(
    a: Option<T>,
    b: Option<T>,
    c: Option<T>,
    d: Option<T>,
    e: Option<T>,
    f: Option<T>,
    g: Option<T>,
    h: Option<T>,
    i: Option<T>,
    j: Option<T>,
    k: Option<T>,
)
    ensures
        plain::first_told(
            seq![a, b, c, d, e, f, g, h, i, j, k],
            search::either(a, search::either(b, search::either(c, search::either(d, search::either(e, search::either(f, search::either(g, search::either(h, search::either(i, search::either(j, k)))))))))),
        ),
{
}

// ------------------------------------------------------------------------ laws

/// The seeders of a row are the first count among: its `data-seeders`, those below
/// it, its `data-seeds`, those below it, the texts of `.seeders`, of `.seeds`, of
/// `.item-seed`, and the last cell but one.
pub proof fn seeders_stand_where_they_should(row: dom::BranchModel, page: weburl::UrlModel)
    ensures
        plain::first_told(
            seq![
                named_count("data-seeders"@)(row.element),
                plain::heard(below(row, "[data-seeders]"@), named_count("data-seeders"@)),
                named_count("data-seeds"@)(row.element),
                plain::heard(below(row, "[data-seeds]"@), named_count("data-seeds"@)),
                plain::heard(below(row, ".seeders"@), text_count()),
                plain::heard(below(row, ".seeds"@), text_count()),
                plain::heard(below(row, ".item-seed"@), text_count()),
                count_from_end(row, 2),
            ],
            search::row_seeders(row),
        ),
        search::row_result(row, page) matches Some(result) ==> result.seeders
            == search::row_seeders(row),
{
    reveal(search::row_seeders);
    selectors_have_places();
    first_named_count_is_heard(row.parts[10], "data-seeders"@);
    first_named_count_is_heard(row.parts[11], "data-seeds"@);
    first_count_is_heard(row.parts[12]);
    first_count_is_heard(row.parts[13]);
    first_count_is_heard(row.parts[14]);
    told_of_eight(
                named_count("data-seeders"@)(row.element),
                plain::heard(below(row, "[data-seeders]"@), named_count("data-seeders"@)),
                named_count("data-seeds"@)(row.element),
                plain::heard(below(row, "[data-seeds]"@), named_count("data-seeds"@)),
                plain::heard(below(row, ".seeders"@), text_count()),
                plain::heard(below(row, ".seeds"@), text_count()),
                plain::heard(below(row, ".item-seed"@), text_count()),
                count_from_end(row, 2),
    );
}

/// The leechers of a row are the first count among: its `data-leechers`,
/// `data-leeches` and `data-peers`, each with those below it, the texts of
/// `.leechers`, `.leeches`, `.item-leech` and `.peers`, and the last cell.
pub proof fn leechers_stand_where_they_should(row: dom::BranchModel, page: weburl::UrlModel)
    ensures
        plain::first_told(
            seq![
                named_count("data-leechers"@)(row.element),
                plain::heard(below(row, "[data-leechers]"@), named_count("data-leechers"@)),
                named_count("data-leeches"@)(row.element),
                plain::heard(below(row, "[data-leeches]"@), named_count("data-leeches"@)),
                named_count("data-peers"@)(row.element),
                plain::heard(below(row, "[data-peers]"@), named_count("data-peers"@)),
                plain::heard(below(row, ".leechers"@), text_count()),
                plain::heard(below(row, ".leeches"@), text_count()),
                plain::heard(below(row, ".item-leech"@), text_count()),
                plain::heard(below(row, ".peers"@), text_count()),
                count_from_end(row, 1),
            ],
            search::row_leechers(row),
        ),
        search::row_result(row, page) matches Some(result) ==> result.leechers
            == search::row_leechers(row),
{
    reveal(search::row_leechers);
    selectors_have_places();
    first_named_count_is_heard(row.parts[15], "data-leechers"@);
    first_named_count_is_heard(row.parts[16], "data-leeches"@);
    first_named_count_is_heard(row.parts[17], "data-peers"@);
    first_count_is_heard(row.parts[18]);
    first_count_is_heard(row.parts[19]);
    first_count_is_heard(row.parts[20]);
    first_count_is_heard(row.parts[21]);
    told_of_eleven(
                named_count("data-leechers"@)(row.element),
                plain::heard(below(row, "[data-leechers]"@), named_count("data-leechers"@)),
                named_count("data-leeches"@)(row.element),
                plain::heard(below(row, "[data-leeches]"@), named_count("data-leeches"@)),
                named_count("data-peers"@)(row.element),
                plain::heard(below(row, "[data-peers]"@), named_count("data-peers"@)),
                plain::heard(below(row, ".leechers"@), text_count()),
                plain::heard(below(row, ".leeches"@), text_count()),
                plain::heard(below(row, ".item-leech"@), text_count()),
                plain::heard(below(row, ".peers"@), text_count()),
                count_from_end(row, 1),
    );
}

/// The size of a row is the first size among: its `data-size` and `data-bytes`,
/// each with those below it, the texts of `.size`, `.item-size`, `.detDesc` and
/// `.description`, and the whole text of the row.
pub proof fn sizes_stand_where_they_should(row: dom::BranchModel, page: weburl::UrlModel)
    ensures
        plain::first_told(
            seq![
                named_size("data-size"@)(row.element),
                plain::heard(below(row, "[data-size]"@), named_size("data-size"@)),
                named_size("data-bytes"@)(row.element),
                plain::heard(below(row, "[data-bytes]"@), named_size("data-bytes"@)),
                plain::heard(below(row, ".size"@), text_size()),
                plain::heard(below(row, ".item-size"@), text_size()),
                plain::heard(below(row, ".detDesc"@), text_size()),
                plain::heard(below(row, ".description"@), text_size()),
                text_size()(row.element),
            ],
            search::row_size(row),
        ),
        search::row_result(row, page) matches Some(result) ==> result.size_bytes
            == search::row_size(row),
{
    reveal(search::row_size);
    selectors_have_places();
    first_named_size_is_heard(row.parts[22], "data-size"@);
    first_named_size_is_heard(row.parts[23], "data-bytes"@);
    first_size_is_heard(row.parts[24]);
    first_size_is_heard(row.parts[25]);
    first_size_is_heard(row.parts[26]);
    first_size_is_heard(row.parts[27]);
    told_of_nine(
                named_size("data-size"@)(row.element),
                plain::heard(below(row, "[data-size]"@), named_size("data-size"@)),
                named_size("data-bytes"@)(row.element),
                plain::heard(below(row, "[data-bytes]"@), named_size("data-bytes"@)),
                plain::heard(below(row, ".size"@), text_size()),
                plain::heard(below(row, ".item-size"@), text_size()),
                plain::heard(below(row, ".detDesc"@), text_size()),
                plain::heard(below(row, ".description"@), text_size()),
                text_size()(row.element),
    );
}

/// The category of a row is the first label among the texts of `.category`,
/// `.item-type` and `.type`, or else what the first link to a category is called.
pub proof fn categories_stand_where_they_should(row: dom::BranchModel, page: weburl::UrlModel)
    ensures
        plain::first_told(
            seq![
                plain::heard(below(row, ".category"@), label()),
                plain::heard(below(row, ".item-type"@), label()),
                plain::heard(below(row, ".type"@), label()),
                match plain::heard(below(row, "a[href]"@), category_of()) {
                    Some(name) => name,
                    None => None,
                },
            ],
            search::row_category(row),
        ),
        search::row_result(row, page) matches Some(result) ==> result.category
            == search::row_category(row),
{
    reveal(search::row_category);
    selectors_have_places();
    first_label_is_heard(row.parts[28]);
    first_label_is_heard(row.parts[29]);
    first_label_is_heard(row.parts[30]);
    first_category_is_heard(row.parts[0]);
    told_of_four(
                plain::heard(below(row, ".category"@), label()),
                plain::heard(below(row, ".item-type"@), label()),
                plain::heard(below(row, ".type"@), label()),
                match plain::heard(below(row, "a[href]"@), category_of()) {
                    Some(name) => name,
                    None => None,
                },
    );
}

/// The name of a row is the first title among the first four elements of each of
/// the places for titles, in order, or else the display name in the magnet link.
pub proof fn names_stand_where_they_should(row: dom::BranchModel, magnet: model::MagnetModel)
    ensures
        plain::first_told(
            seq![
                plain::heard(front(below(row, "a.detLink"@), 4), title()),
                plain::heard(front(below(row, ".detName a"@), 4), title()),
                plain::heard(front(below(row, ".item-name"@), 4), title()),
                plain::heard(front(below(row, ".name"@), 4), title()),
                plain::heard(front(below(row, "[data-title]"@), 4), title()),
                plain::heard(front(below(row, "[data-name]"@), 4), title()),
                plain::heard(front(below(row, "a[href*='/torrent/']"@), 4), title()),
                plain::heard(front(below(row, "a[href*='/description/']"@), 4), title()),
                search::magnet_name(magnet.href),
            ],
            search::row_name(row, magnet),
        ),
{
    reveal_with_fuel(search::title_in, 9);
    selectors_have_places();
    fronts_are_bounded(row.parts[2], 4);
    fronts_are_bounded(row.parts[3], 4);
    fronts_are_bounded(row.parts[4], 4);
    fronts_are_bounded(row.parts[5], 4);
    fronts_are_bounded(row.parts[6], 4);
    fronts_are_bounded(row.parts[7], 4);
    fronts_are_bounded(row.parts[8], 4);
    fronts_are_bounded(row.parts[9], 4);
    first_title_is_heard(front(row.parts[2], 4));
    first_title_is_heard(front(row.parts[3], 4));
    first_title_is_heard(front(row.parts[4], 4));
    first_title_is_heard(front(row.parts[5], 4));
    first_title_is_heard(front(row.parts[6], 4));
    first_title_is_heard(front(row.parts[7], 4));
    first_title_is_heard(front(row.parts[8], 4));
    first_title_is_heard(front(row.parts[9], 4));
    told_of_nine(
                plain::heard(front(below(row, "a.detLink"@), 4), title()),
                plain::heard(front(below(row, ".detName a"@), 4), title()),
                plain::heard(front(below(row, ".item-name"@), 4), title()),
                plain::heard(front(below(row, ".name"@), 4), title()),
                plain::heard(front(below(row, "[data-title]"@), 4), title()),
                plain::heard(front(below(row, "[data-name]"@), 4), title()),
                plain::heard(front(below(row, "a[href*='/torrent/']"@), 4), title()),
                plain::heard(front(below(row, "a[href*='/description/']"@), 4), title()),
                search::magnet_name(magnet.href),
    );
}

proof fn fronts_are_bounded<T>(items: Seq<T>, limit: int)
    requires
        0 <= limit,
    ensures
        discovery::bounded(items, limit) == front(items, limit),
{
    assert(discovery::bounded(items, limit) =~= front(items, limit));
}

/// The first `dn` among the pairs of a magnet link's query is the name that the
/// link gives, where anything of it can be shown.
pub proof fn display_names_are_taken(pairs: Seq<(Seq<char>, Seq<char>)>, at: int)
    requires
        0 <= at < pairs.len(),
        pairs[at].0 == "dn"@,
        forall|i: int| 0 <= i < at ==> (#[trigger] pairs[i]).0 != "dn"@,
    ensures
        search::display_name(pairs) == presentable(pairs[at].1, 512),
    decreases at,
{
    if at > 0 {
        let rest = pairs.drop_first();
        assert(pairs[0].0 != "dn"@);
        assert forall|i: int| 0 <= i < at - 1 implies (#[trigger] rest[i]).0 != "dn"@ by {
            assert(rest[i] == pairs[i + 1]);
        }
        display_names_are_taken(rest, at - 1);
    }
}

/// A row is a result exactly if one of its first 80 links is a magnet link, it has
/// a name, and the page has a host; the first such link is the result's, and the
/// host is told in small letters.
pub proof fn rows_with_a_magnet_and_a_name_are_results(
    row: dom::BranchModel,
    page: weburl::UrlModel,
)
    requires
        forall|i: int|
            0 <= i < below(row, "a[href]"@).len() ==> (#[trigger] below(row, "a[href]"@)[i]).attr(
                "href"@,
            ) is Some,
    ensures
        ({
            let magnet = plain::heard(front(below(row, "a[href]"@), 80), magnet_of());
            &&& search::row_result(row, page) is Some <==> magnet is Some && search::row_name(
                row,
                magnet->0,
            ) is Some && page.host_text is Some
            &&& search::row_result(row, page) matches Some(result) ==> {
                &&& magnet == Some(result.magnet)
                &&& search::row_name(row, result.magnet) == Some(result.name)
                &&& plain::same_word(result.source_host, page.host_text->0)
                &&& plain::is_small(result.source_host)
            }
        }),
{
    selectors_have_places();
    let links = row.parts[0];
    assert(below(row, "a[href]"@) == links);
    fronts_are_bounded(links, 80);
    let first = front(links, 80);
    assert forall|i: int| 0 <= i < first.len() implies (#[trigger] first[i]).attr("href"@)
        is Some by {
        assert(first[i] == links[i]);
    }
    first_magnet_is_heard(first);
    if let Some(host) = page.host_text {
        let lowered = text::lower(host);
        assert(plain::is_small(lowered));
        assert(plain::same_word(lowered, host));
    }
}

/// Nothing but the row itself, its cells and the places for seeders bears on the
/// seeders of a row.
pub proof fn seeders_depend_on_their_places(row: dom::BranchModel, other: dom::BranchModel)
    requires
        row.element == other.element,
        below(row, "td"@) == below(other, "td"@),
        below(row, "[data-seeders]"@) == below(other, "[data-seeders]"@),
        below(row, "[data-seeds]"@) == below(other, "[data-seeds]"@),
        below(row, ".seeders"@) == below(other, ".seeders"@),
        below(row, ".seeds"@) == below(other, ".seeds"@),
        below(row, ".item-seed"@) == below(other, ".item-seed"@),
    ensures
        search::row_seeders(row) == search::row_seeders(other),
{
    reveal(search::row_seeders);
    selectors_have_places();
}

/// Nothing but the row itself, its cells and the places for leechers bears on the
/// leechers of a row.
pub proof fn leechers_depend_on_their_places(row: dom::BranchModel, other: dom::BranchModel)
    requires
        row.element == other.element,
        below(row, "td"@) == below(other, "td"@),
        below(row, "[data-leechers]"@) == below(other, "[data-leechers]"@),
        below(row, "[data-leeches]"@) == below(other, "[data-leeches]"@),
        below(row, "[data-peers]"@) == below(other, "[data-peers]"@),
        below(row, ".leechers"@) == below(other, ".leechers"@),
        below(row, ".leeches"@) == below(other, ".leeches"@),
        below(row, ".item-leech"@) == below(other, ".item-leech"@),
        below(row, ".peers"@) == below(other, ".peers"@),
    ensures
        search::row_leechers(row) == search::row_leechers(other),
{
    reveal(search::row_leechers);
    selectors_have_places();
}

/// A count written in decimal in the first element of a place is the row's, where
/// no place before it gives one: so it is for `.item-seed`, whatever the row says
/// of leechers and whatever its cells hold.
pub proof fn item_seeds_are_seeders(row: dom::BranchModel, n: u64)
    requires
        row.element.attr("data-seeders"@) is None,
        row.element.attr("data-seeds"@) is None,
        below(row, "[data-seeders]"@).len() == 0,
        below(row, "[data-seeds]"@).len() == 0,
        plain::heard(below(row, ".seeders"@), text_count()) is None,
        plain::heard(below(row, ".seeds"@), text_count()) is None,
        below(row, ".item-seed"@).len() > 0,
        below(row, ".item-seed"@)[0].text == seq![text::decimal_text(n as nat)],
    ensures
        search::row_seeders(row) == Some(n),
{
    let seeds = below(row, ".item-seed"@);
    plain::first_is_heard_first(below(row, "[data-seeders]"@), named_count("data-seeders"@));
    plain::first_is_heard_first(below(row, "[data-seeds]"@), named_count("data-seeds"@));
    plain::first_is_heard_first(seeds, text_count());
    written_counts_are_read(seeds[0], n);
    seeders_stand_where_they_should(row, arbitrary());
    let sources = seq![
        named_count("data-seeders"@)(row.element),
        plain::heard(below(row, "[data-seeders]"@), named_count("data-seeders"@)),
        named_count("data-seeds"@)(row.element),
        plain::heard(below(row, "[data-seeds]"@), named_count("data-seeds"@)),
        plain::heard(below(row, ".seeders"@), text_count()),
        plain::heard(below(row, ".seeds"@), text_count()),
        plain::heard(seeds, text_count()),
        count_from_end(row, 2),
    ];
    assert(sources[6] == Some(n));
    assert(plain::first_told(sources, search::row_seeders(row)));
}

/// An element whose only text is a number in decimal gives that number.
pub proof fn written_counts_are_read(element: dom::ElementModel, n: u64)
    requires
        element.text == seq![text::decimal_text(n as nat)],
    ensures
        text_count()(element) == Some(n),
{
    search::counts_read_back(n);
    assert(element.text.take(1) =~= element.text);
}

/// A number that tells the selectors of a row apart: the length and three
/// characters.
spec fn selector_code(css: Seq<char>) -> int {
    let second = css[1] as int;
    let seventh = if css.len() > 6 {
        css[6] as int
    } else {
        0
    };
    let eighth = if css.len() > 7 {
        css[7] as int
    } else {
        0
    };
    (css.len() * 1000 + second) * 1_000_000 + seventh * 1000 + eighth
}

spec fn selector_codes() -> Seq<int> {
    seq![
        7091093000,
        2100000000,
        9046105110,
        10100109101,
        10105110097,
        5110000000,
        12100116105,
        11100110097,
        20091042061,
        24091042061,
        14100115101,
        12100115101,
        8115114115,
        6115000000,
        10105115101,
        15100108101,
        14100108101,
        12100112101,
        9108101114,
        8108101115,
        11105108101,
        6112000000,
        11100115105,
        12100098121,
        5115000000,
        10105115105,
        8100115099,
        12100105112,
        9099111114,
        10105116121,
        5116000000,
    ]
}

proof fn selectors_have_codes()
    ensures
        search::row_selectors().len() == 31,
        forall|i: int|
            0 <= i < 31 ==> selector_code(#[trigger] search::row_selectors()[i])
                == selector_codes()[i],
{
    let all = search::row_selectors();
    let codes = selector_codes();
    assert(selector_code(all[0]) == codes[0]) by {
        reveal_strlit("a[href]");
    }
    assert(selector_code(all[1]) == codes[1]) by {
        reveal_strlit("td");
    }
    assert(selector_code(all[2]) == codes[2]) by {
        reveal_strlit("a.detLink");
    }
    assert(selector_code(all[3]) == codes[3]) by {
        reveal_strlit(".detName a");
    }
    assert(selector_code(all[4]) == codes[4]) by {
        reveal_strlit(".item-name");
    }
    assert(selector_code(all[5]) == codes[5]) by {
        reveal_strlit(".name");
    }
    assert(selector_code(all[6]) == codes[6]) by {
        reveal_strlit("[data-title]");
    }
    assert(selector_code(all[7]) == codes[7]) by {
        reveal_strlit("[data-name]");
    }
    assert(selector_code(all[8]) == codes[8]) by {
        reveal_strlit("a[href*='/torrent/']");
    }
    assert(selector_code(all[9]) == codes[9]) by {
        reveal_strlit("a[href*='/description/']");
    }
    assert(selector_code(all[10]) == codes[10]) by {
        reveal_strlit("[data-seeders]");
    }
    assert(selector_code(all[11]) == codes[11]) by {
        reveal_strlit("[data-seeds]");
    }
    assert(selector_code(all[12]) == codes[12]) by {
        reveal_strlit(".seeders");
    }
    assert(selector_code(all[13]) == codes[13]) by {
        reveal_strlit(".seeds");
    }
    assert(selector_code(all[14]) == codes[14]) by {
        reveal_strlit(".item-seed");
    }
    assert(selector_code(all[15]) == codes[15]) by {
        reveal_strlit("[data-leechers]");
    }
    assert(selector_code(all[16]) == codes[16]) by {
        reveal_strlit("[data-leeches]");
    }
    assert(selector_code(all[17]) == codes[17]) by {
        reveal_strlit("[data-peers]");
    }
    assert(selector_code(all[18]) == codes[18]) by {
        reveal_strlit(".leechers");
    }
    assert(selector_code(all[19]) == codes[19]) by {
        reveal_strlit(".leeches");
    }
    assert(selector_code(all[20]) == codes[20]) by {
        reveal_strlit(".item-leech");
    }
    assert(selector_code(all[21]) == codes[21]) by {
        reveal_strlit(".peers");
    }
    assert(selector_code(all[22]) == codes[22]) by {
        reveal_strlit("[data-size]");
    }
    assert(selector_code(all[23]) == codes[23]) by {
        reveal_strlit("[data-bytes]");
    }
    assert(selector_code(all[24]) == codes[24]) by {
        reveal_strlit(".size");
    }
    assert(selector_code(all[25]) == codes[25]) by {
        reveal_strlit(".item-size");
    }
    assert(selector_code(all[26]) == codes[26]) by {
        reveal_strlit(".detDesc");
    }
    assert(selector_code(all[27]) == codes[27]) by {
        reveal_strlit(".description");
    }
    assert(selector_code(all[28]) == codes[28]) by {
        reveal_strlit(".category");
    }
    assert(selector_code(all[29]) == codes[29]) by {
        reveal_strlit(".item-type");
    }
    assert(selector_code(all[30]) == codes[30]) by {
        reveal_strlit(".type");
    }
}

/// Where each selector of a row stands among them.
pub proof fn selectors_have_places()
    ensures
        search::row_selectors().index_of("a[href]"@) == 0,
        search::row_selectors().index_of("td"@) == 1,
        search::row_selectors().index_of("a.detLink"@) == 2,
        search::row_selectors().index_of(".detName a"@) == 3,
        search::row_selectors().index_of(".item-name"@) == 4,
        search::row_selectors().index_of(".name"@) == 5,
        search::row_selectors().index_of("[data-title]"@) == 6,
        search::row_selectors().index_of("[data-name]"@) == 7,
        search::row_selectors().index_of("a[href*='/torrent/']"@) == 8,
        search::row_selectors().index_of("a[href*='/description/']"@) == 9,
        search::row_selectors().index_of("[data-seeders]"@) == 10,
        search::row_selectors().index_of("[data-seeds]"@) == 11,
        search::row_selectors().index_of(".seeders"@) == 12,
        search::row_selectors().index_of(".seeds"@) == 13,
        search::row_selectors().index_of(".item-seed"@) == 14,
        search::row_selectors().index_of("[data-leechers]"@) == 15,
        search::row_selectors().index_of("[data-leeches]"@) == 16,
        search::row_selectors().index_of("[data-peers]"@) == 17,
        search::row_selectors().index_of(".leechers"@) == 18,
        search::row_selectors().index_of(".leeches"@) == 19,
        search::row_selectors().index_of(".item-leech"@) == 20,
        search::row_selectors().index_of(".peers"@) == 21,
        search::row_selectors().index_of("[data-size]"@) == 22,
        search::row_selectors().index_of("[data-bytes]"@) == 23,
        search::row_selectors().index_of(".size"@) == 24,
        search::row_selectors().index_of(".item-size"@) == 25,
        search::row_selectors().index_of(".detDesc"@) == 26,
        search::row_selectors().index_of(".description"@) == 27,
        search::row_selectors().index_of(".category"@) == 28,
        search::row_selectors().index_of(".item-type"@) == 29,
        search::row_selectors().index_of(".type"@) == 30,
{
    let all = search::row_selectors();
    selectors_have_codes();
    selector_has_place(0);
    selector_has_place(1);
    selector_has_place(2);
    selector_has_place(3);
    selector_has_place(4);
    selector_has_place(5);
    selector_has_place(6);
    selector_has_place(7);
    selector_has_place(8);
    selector_has_place(9);
    selector_has_place(10);
    selector_has_place(11);
    selector_has_place(12);
    selector_has_place(13);
    selector_has_place(14);
    selector_has_place(15);
    selector_has_place(16);
    selector_has_place(17);
    selector_has_place(18);
    selector_has_place(19);
    selector_has_place(20);
    selector_has_place(21);
    selector_has_place(22);
    selector_has_place(23);
    selector_has_place(24);
    selector_has_place(25);
    selector_has_place(26);
    selector_has_place(27);
    selector_has_place(28);
    selector_has_place(29);
    selector_has_place(30);
}

proof fn selector_has_place(at: int)
    requires
        0 <= at < 31,
    ensures
        search::row_selectors().index_of(search::row_selectors()[at]) == at,
{
    let all = search::row_selectors();
    let codes = selector_codes();
    selectors_have_codes();
    let found = all.index_of(all[at]);
    assert(all.contains(all[at]));
    assert(0 <= found < all.len() && all[found] == all[at]);
    assert(selector_code(all[found]) == codes[found]);
    codes_differ(found, at);
}

proof fn codes_differ(i: int, j: int)
    requires
        0 <= i < 31,
        0 <= j < 31,
        selector_codes()[i] == selector_codes()[j],
    ensures
        i == j,
{
}

} // verus!
