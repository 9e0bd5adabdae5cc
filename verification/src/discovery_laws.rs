//! Laws of discovery: which links lead to candidates, and which pages and forms
//! are accepted.

use crate::browser;
use crate::discovery;
use crate::dom;
use crate::plain;
use crate::row_laws;
use crate::text;
use crate::weburl;
use vstd::prelude::*;

verus! {

// ----------------------------------------------------------------------- sites

/// The host of a URL, empty where it has none.
pub open spec fn host_of(url: weburl::UrlModel) -> Seq<char> {
    match url.host_text {
        Some(host) => host,
        None => Seq::empty(),
    }
}

/// The port of a URL, zero where none is known.
pub open spec fn port_of(url: weburl::UrlModel) -> int {
    match url.port {
        Some(port) => port as int,
        None => 0,
    }
}

/// Two URLs are of one site: their hosts are the same but for case, and their
/// ports are the same.
pub open spec fn same_site(left: weburl::UrlModel, right: weburl::UrlModel) -> bool {
    plain::same_word(host_of(left), host_of(right)) && port_of(left) == port_of(right)
}

proof fn tails_of_keys(a: Seq<char>, b: Seq<char>, m: nat, n: nat)
    requires
        a + ":"@ + text::decimal_text(m) == b + ":"@ + text::decimal_text(n),
        text::decimal_text(m).len() <= text::decimal_text(n).len(),
    ensures
        a == b,
        m == n,
{
    let x = text::decimal_text(m);
    let y = text::decimal_text(n);
    let left = a + ":"@ + x;
    let right = b + ":"@ + y;
    reveal_strlit(":");
    text::decimal_text_round_trips(m);
    text::decimal_text_round_trips(n);
    assert(left.len() == right.len());
    if x.len() < y.len() {
        let at = a.len() as int;
        assert(left[at] == ':');
        assert(right[at] == y[at - b.len() - 1]);
        assert(text::is_digit(y[at - b.len() - 1]));
        assert(false);
    }
    assert(a =~= b) by {
        assert forall|i: int| 0 <= i < a.len() implies a[i] == b[i] by {
            assert(left[i] == right[i]);
        }
    }
    assert(x =~= y) by {
        assert forall|i: int| 0 <= i < x.len() implies x[i] == y[i] by {
            assert(left[a.len() + 1 + i] == right[a.len() + 1 + i]);
        }
    }
}

/// Two URLs count as one site exactly if their hosts are the same but for case and
/// their ports are the same.
pub proof fn sites_are_hosts_and_ports(left: weburl::UrlModel, right: weburl::UrlModel)
    ensures
        weburl::host_key(left) == weburl::host_key(right) <==> same_site(left, right),
{
    plain::same_words_lower_alike(host_of(left), host_of(right));
    let a = text::lower(host_of(left));
    let b = text::lower(host_of(right));
    let m = port_of(left) as nat;
    let n = port_of(right) as nat;
    if weburl::host_key(left) == weburl::host_key(right) {
        if text::decimal_text(m).len() <= text::decimal_text(n).len() {
            tails_of_keys(a, b, m, n);
        } else {
            tails_of_keys(b, a, n, m);
        }
    }
}

/// A web address with a host and without credentials.
pub open spec fn is_open_address(url: weburl::UrlModel) -> bool {
    &&& url.scheme == "http"@ || url.scheme == "https"@
    &&& url.username.len() == 0
    &&& url.password is None
    &&& url.host_text is Some
}

/// An open address without a fragment is a candidate as it stands; any other
/// address is none.
pub proof fn open_addresses_are_candidates(url: weburl::UrlModel)
    ensures
        is_open_address(url) && url.fragment is None ==> discovery::normalized(url) == Some(url),
        !is_open_address(url) ==> discovery::normalized(url) is None,
        discovery::normalized(url) matches Some(candidate) ==> is_open_address(candidate)
            && candidate.fragment is None,
        is_open_address(url) && url.fragment is Some && discovery::normalized(url) is Some
            ==> discovery::normalized(url) == weburl::url_parse(
            weburl::url_without_fragment(url.href)->0,
        ),
{
    assert(url.username.len() == 0 <==> url.username =~= Seq::empty());
    if let Some(candidate) = discovery::normalized(url) {
        assert(candidate.username.len() == 0 <==> candidate.username =~= Seq::empty());
    }
}

// ----------------------------------------------------------------------- links

/// A text mentions one of the words that links to proxies bear.
pub open spec fn speaks_of_a_proxy(words: Seq<char>) -> bool {
    ||| plain::mentions(words, "pirate"@)
    ||| plain::mentions(words, "tpb"@)
    ||| plain::mentions(words, "proxy"@)
    ||| plain::mentions(words, "mirrorbay"@)
    ||| plain::mentions(words, "hiddenbay"@)
}

/// A word without a space is mentioned by two texts with a space between them
/// exactly if one of the two mentions it.
proof fn spaces_part_mentions(front: Seq<char>, back: Seq<char>, word: Seq<char>)
    requires
        word.len() > 0,
        forall|i: int| 0 <= i < word.len() ==> #[trigger] word[i] != ' ',
    ensures
        plain::mentions(front + " "@ + back, word) <==> plain::mentions(front, word)
            || plain::mentions(back, word),
{
    reveal_strlit(" ");
    let whole = front + " "@ + back;
    if plain::mentions(front, word) {
        plain::wholes_mention(Seq::empty(), front, " "@ + back, word);
        assert(Seq::empty() + front + (" "@ + back) =~= whole);
    }
    if plain::mentions(back, word) {
        plain::wholes_mention(front + " "@, back, Seq::empty(), word);
        assert(front + " "@ + back + Seq::empty() =~= whole);
    }
    if plain::mentions(whole, word) {
        let at = choose|at: int| #[trigger] plain::stands(word, whole, at);
        let middle = front.len() as int;
        assert(whole[middle] == ' ');
        if at <= middle < at + word.len() {
            assert(plain::same_letter(word[middle - at], whole[at + (middle - at)]));
            assert(false);
        } else if at + word.len() <= middle {
            assert(plain::stands(word, front, at)) by {
                assert forall|i: int| 0 <= i < word.len() implies plain::same_letter(
                    #[trigger] word[i],
                    front[at + i],
                ) by {
                    assert(front[at + i] == whole[at + i]);
                }
            }
        } else {
            assert(plain::stands(word, back, at - middle - 1)) by {
                assert forall|i: int| 0 <= i < word.len() implies plain::same_letter(
                    #[trigger] word[i],
                    back[at - middle - 1 + i],
                ) by {
                    assert(back[at - middle - 1 + i] == whole[at + i]);
                }
            }
        }
    }
}

proof fn proxy_word(words: Seq<char>, href: Seq<char>, k: int)
    requires
        0 <= k < 5,
    ensures
        text::occurs(discovery::proxy_words()[k], text::lower(words + " "@ + href))
            <==> plain::mentions(words, discovery::proxy_words()[k]) || plain::mentions(
            href,
            discovery::proxy_words()[k],
        ),
{
    reveal_strlit("pirate");
    reveal_strlit("tpb");
    reveal_strlit("proxy");
    reveal_strlit("mirrorbay");
    reveal_strlit("hiddenbay");
    let word = discovery::proxy_words()[k];
    plain::mentions_are_occurrences(word, words + " "@ + href);
    spaces_part_mentions(words, href, word);
}

/// A link looks as if it led to a proxy exactly if its text or its address speaks
/// of one, in any case.
pub proof fn texts_and_addresses_speak_of_proxies(words: Seq<char>, href: Seq<char>)
    ensures
        discovery::looks_like_candidate(words, href) <==> speaks_of_a_proxy(words)
            || speaks_of_a_proxy(href),
{
    let all = discovery::proxy_words();
    let both = text::lower(words + " "@ + href);
    proxy_word(words, href, 0);
    proxy_word(words, href, 1);
    proxy_word(words, href, 2);
    proxy_word(words, href, 3);
    proxy_word(words, href, 4);
    if speaks_of_a_proxy(words) || speaks_of_a_proxy(href) {
        assert(text::occurs(all[0], both) || text::occurs(all[1], both) || text::occurs(
            all[2],
            both,
        ) || text::occurs(all[3], both) || text::occurs(all[4], both));
    }
}

/// An anchor leads to a candidate: its address, resolved against the page, is one;
/// and unless the list is trusted, its text or its address speaks of a proxy.
pub open spec fn leads_to(
    anchor: dom::ElementModel,
    page: weburl::UrlModel,
    trusted: bool,
    candidate: weburl::UrlModel,
) -> bool {
    &&& anchor.attr("href"@) matches Some(href)
    &&& trusted || speaks_of_a_proxy(anchor.brief_text()) || speaks_of_a_proxy(href)
    &&& weburl::url_join(page.href, href) matches Some(target)
    &&& weburl::url_parse(target) matches Some(url)
    &&& discovery::normalized(url) == Some(candidate)
}

proof fn linked_is_led_to(anchor: dom::ElementModel, page: weburl::UrlModel, trusted: bool)
    ensures
        forall|candidate: weburl::UrlModel| #[trigger]
            leads_to(anchor, page, trusted, candidate) <==> discovery::linked(anchor, page, trusted)
                == Some(candidate),
{
    if let Some(href) = anchor.attr("href"@) {
        texts_and_addresses_speak_of_proxies(anchor.brief_text(), href);
    }
}

/// A list of candidates holds one of a site.
pub open spec fn holds_site(list: Seq<weburl::UrlModel>, url: weburl::UrlModel) -> bool {
    exists|k: int| 0 <= k < list.len() && same_site(#[trigger] list[k], url)
}

/// A list holds the key of a site exactly if it holds one of the site.
pub proof fn keys_hold_sites(list: Seq<weburl::UrlModel>, url: weburl::UrlModel)
    ensures
        discovery::host_keys(list).contains(weburl::host_key(url)) <==> holds_site(list, url),
{
    let keys = discovery::host_keys(list);
    if keys.contains(weburl::host_key(url)) {
        let k = choose|k: int| 0 <= k < keys.len() && keys[k] == weburl::host_key(url);
        sites_are_hosts_and_ports(list[k], url);
        assert(same_site(list[k], url));
    }
    if holds_site(list, url) {
        let k = choose|k: int| 0 <= k < list.len() && same_site(#[trigger] list[k], url);
        sites_are_hosts_and_ports(list[k], url);
        assert(keys[k] == weburl::host_key(url));
    }
}

proof fn harvests_only_grow(
    anchors: Seq<dom::ElementModel>,
    page: weburl::UrlModel,
    trusted: bool,
    limit: nat,
    size: int,
)
    requires
        0 <= size <= anchors.len(),
    ensures
        discovery::harvested(anchors.take(size), page, trusted, limit).is_prefix_of(
            discovery::harvested(anchors, page, trusted, limit),
        ),
    decreases anchors.len() - size,
{
    if size == anchors.len() {
        assert(anchors.take(size) =~= anchors);
    } else {
        let rest = anchors.drop_last();
        harvests_only_grow(rest, page, trusted, limit, size);
        assert(rest.take(size) =~= anchors.take(size));
        let before = discovery::harvested(rest, page, trusted, limit);
        let after = discovery::harvested(anchors, page, trusted, limit);
        assert(before.is_prefix_of(after));
        let start = discovery::harvested(anchors.take(size), page, trusted, limit);
        assert(after.take(start.len() as int) =~= start) by {
            assert(before.take(start.len() as int) =~= start);
        }
    }
}

/// Wherever an anchor leads, that site is among what is taken from the anchors,
/// unless it is the page's own or the limit is reached.
pub proof fn sites_are_not_missed(
    anchors: Seq<dom::ElementModel>,
    page: weburl::UrlModel,
    trusted: bool,
    limit: nat,
    at: int,
    candidate: weburl::UrlModel,
)
    requires
        0 <= at < anchors.len(),
        leads_to(anchors[at], page, trusted, candidate),
        !same_site(candidate, page),
        discovery::harvested(anchors, page, trusted, limit).len() < limit,
    ensures
        holds_site(discovery::harvested(anchors, page, trusted, limit), candidate),
{
    let front = anchors.take(at + 1);
    let before = discovery::harvested(front.drop_last(), page, trusted, limit);
    let there = discovery::harvested(front, page, trusted, limit);
    let all = discovery::harvested(anchors, page, trusted, limit);
    linked_is_led_to(anchors[at], page, trusted);
    assert(front.last() == anchors[at]);
    harvests_only_grow(anchors, page, trusted, limit, at + 1);
    harvests_only_grow(front, page, trusted, limit, at);
    assert(front.take(at) =~= front.drop_last());
    assert(there.len() <= all.len());
    assert(before.len() <= there.len());
    sites_are_hosts_and_ports(candidate, page);
    keys_hold_sites(before, candidate);
    if discovery::host_keys(before).contains(weburl::host_key(candidate)) {
        let k = choose|k: int| 0 <= k < before.len() && same_site(#[trigger] before[k], candidate);
        assert(there[k] == before[k]);
        assert(all[k] == there[k]);
        assert(same_site(all[k], candidate));
    } else {
        let k = before.len() as int;
        assert(there[k] == candidate);
        assert(all[k] == there[k]);
        sites_are_hosts_and_ports(candidate, candidate);
        assert(same_site(all[k], candidate));
    }
}

/// Whatever is taken from anchors is what one of them leads to, is not of the
/// page's own site, and no anchor before that one leads to the same site.
pub proof fn the_first_link_to_a_site_is_taken(
    anchors: Seq<dom::ElementModel>,
    page: weburl::UrlModel,
    trusted: bool,
    limit: nat,
    k: int,
)
    requires
        0 <= k < discovery::harvested(anchors, page, trusted, limit).len(),
    ensures
        ({
            let taken = discovery::harvested(anchors, page, trusted, limit)[k];
            &&& !same_site(taken, page)
            &&& exists|at: int|
                0 <= at < anchors.len() && #[trigger] leads_to(anchors[at], page, trusted, taken)
                    && no_link_before(anchors, page, trusted, at, taken)
        }),
    decreases anchors.len(),
{
    let all = discovery::harvested(anchors, page, trusted, limit);
    let taken = all[k];
    let rest = anchors.drop_last();
    let before = discovery::harvested(rest, page, trusted, limit);
    if k < before.len() {
        assert(before[k] == taken);
        the_first_link_to_a_site_is_taken(rest, page, trusted, limit, k);
        let at = choose|at: int|
            0 <= at < rest.len() && #[trigger] leads_to(rest[at], page, trusted, taken)
                && no_link_before(rest, page, trusted, at, taken);
        assert(rest[at] == anchors[at]);
        assert(leads_to(anchors[at], page, trusted, taken));
        assert(no_link_before(anchors, page, trusted, at, taken)) by {
            assert forall|i: int, other: weburl::UrlModel|
                0 <= i < at && #[trigger] leads_to(anchors[i], page, trusted, other) implies !same_site(
                other,
                taken,
            ) by {
                assert(rest[i] == anchors[i]);
                assert(leads_to(rest[i], page, trusted, other));
            }
        }
    } else {
        let at = anchors.len() - 1;
        linked_is_led_to(anchors[at], page, trusted);
        assert(leads_to(anchors[at], page, trusted, taken));
        sites_are_hosts_and_ports(taken, page);
        keys_hold_sites(before, taken);
        assert(before.len() < limit);
        assert(no_link_before(anchors, page, trusted, at, taken)) by {
            assert forall|i: int, other: weburl::UrlModel|
                0 <= i < at && #[trigger] leads_to(anchors[i], page, trusted, other) implies !same_site(
                other,
                taken,
            ) by {
                assert(rest[i] == anchors[i]);
                assert(leads_to(rest[i], page, trusted, other));
                sites_are_hosts_and_ports(other, page);
                sites_are_hosts_and_ports(other, taken);
                if same_site(other, taken) {
                    assert(!same_site(other, page));
                    sites_are_not_missed(rest, page, trusted, limit, i, other);
                    let m = choose|m: int| 0 <= m < before.len() && same_site(#[trigger] before[m], other);
                    sites_are_hosts_and_ports(before[m], other);
                    sites_are_hosts_and_ports(before[m], taken);
                    assert(same_site(before[m], taken));
                }
            }
        }
    }
}

/// No anchor before a place leads to the site of a candidate.
pub open spec fn no_link_before(
    anchors: Seq<dom::ElementModel>,
    page: weburl::UrlModel,
    trusted: bool,
    at: int,
    candidate: weburl::UrlModel,
) -> bool {
    forall|i: int, other: weburl::UrlModel|
        0 <= i < at && #[trigger] leads_to(anchors[i], page, trusted, other) ==> !same_site(
            other,
            candidate,
        )
}

/// The first 600 elements that a selector finds on a page.
pub open spec fn anchors_of(html: Seq<char>, css: Seq<char>) -> Seq<dom::ElementModel> {
    match dom::dom_select(html, css) {
        Some(elements) => row_laws::front(elements, 600),
        None => Seq::empty(),
    }
}

/// What a selector leads to on a page, at most `limit`.
pub open spec fn taken_with(
    document: browser::DocumentModel,
    css: Seq<char>,
    trusted: bool,
    limit: nat,
) -> Seq<weburl::UrlModel> {
    discovery::harvested(anchors_of(document.html, css), document.url, trusted, limit)
}

proof fn harvests_are_taken(
    document: browser::DocumentModel,
    css: Seq<char>,
    trusted: bool,
    limit: nat,
)
    ensures
        discovery::harvested_with(document, css, trusted, limit) == taken_with(
            document,
            css,
            trusted,
            limit,
        ),
{
    assert(discovery::bounded(dom::selected(document.html, css), 600) =~= anchors_of(
        document.html,
        css,
    ));
}

/// Which links of a page are read: on `piratebayproxy.info` all that stand in the
/// first cells of tables, or else anywhere in tables; on `techpp.com` those of the
/// article, or else of the main part, that speak of a proxy; and on any other page,
/// or where those lead nowhere, all that speak of one.
pub proof fn pages_are_read_by_their_hosts(document: browser::DocumentModel, limit: nat)
    requires
        limit > 0,
    ensures
        ({
            let host = host_of(document.url);
            let cells = taken_with(document, "table tr td:first-child a[href]"@, true, limit);
            let tables = taken_with(document, "table a[href]"@, true, limit);
            let article = taken_with(document, "article a[href]"@, false, limit);
            let main = taken_with(document, "main a[href]"@, false, limit);
            let any = taken_with(document, "a[href]"@, false, limit);
            let found = discovery::extracted(document, limit);
            let listed = plain::same_word(host, "piratebayproxy.info"@);
            let written = plain::same_word(host, "techpp.com"@);
            &&& listed && cells.len() > 0 ==> found == cells
            &&& listed && cells.len() == 0 && tables.len() > 0 ==> found == tables
            &&& listed && cells.len() == 0 && tables.len() == 0 ==> found == any
            &&& written && article.len() > 0 ==> found == article
            &&& written && article.len() == 0 && main.len() > 0 ==> found == main
            &&& written && article.len() == 0 && main.len() == 0 ==> found == any
            &&& !listed && !written ==> found == any
        }),
{
    let host = host_of(document.url);
    reveal_strlit("piratebayproxy.info");
    reveal_strlit("techpp.com");
    plain::same_words_lower_alike(host, "piratebayproxy.info"@);
    plain::same_words_lower_alike(host, "techpp.com"@);
    harvests_are_taken(document, "table tr td:first-child a[href]"@, true, limit);
    harvests_are_taken(document, "table a[href]"@, true, limit);
    harvests_are_taken(document, "article a[href]"@, false, limit);
    harvests_are_taken(document, "main a[href]"@, false, limit);
    harvests_are_taken(document, "a[href]"@, false, limit);
    let selectors = discovery::list_selectors(discovery::host_or_empty(document.url));
    let rest = selectors.drop_first();
    let none = rest.drop_first();
    if selectors.len() > 0 {
        assert(rest[0] == selectors[1]);
        assert(discovery::first_harvest(document, none, limit) == discovery::harvested_with(
            document,
            "a[href]"@,
            false,
            limit,
        ));
        assert(discovery::first_harvest(document, rest, limit) == {
            let found = discovery::harvested_with(document, rest[0].0, rest[0].1, limit);
            if found.len() > 0 {
                found
            } else {
                discovery::first_harvest(document, none, limit)
            }
        });
    }
}

/// On a page of no special host, an anchor among the first 600 whose text or whose
/// address speaks of a proxy, and which leads to a web address of another site
/// without credentials, has its site among the candidates, unless the limit is
/// reached.
pub proof fn promising_links_are_followed(
    document: browser::DocumentModel,
    limit: nat,
    at: int,
    href: Seq<char>,
    url: weburl::UrlModel,
)
    requires
        limit > 0,
        !plain::same_word(host_of(document.url), "piratebayproxy.info"@),
        !plain::same_word(host_of(document.url), "techpp.com"@),
        dom::dom_select(document.html, "a[href]"@) is Some,
        0 <= at < 600,
        at < dom::dom_select(document.html, "a[href]"@)->0.len(),
        dom::dom_select(document.html, "a[href]"@)->0[at].attr("href"@) == Some(href),
        speaks_of_a_proxy(href) || speaks_of_a_proxy(
            dom::dom_select(document.html, "a[href]"@)->0[at].brief_text(),
        ),
        weburl::url_join(document.url.href, href) is Some,
        weburl::url_parse(weburl::url_join(document.url.href, href)->0) == Some(url),
        is_open_address(url),
        url.fragment is None,
        !same_site(url, document.url),
        discovery::extracted(document, limit).len() < limit,
    ensures
        holds_site(discovery::extracted(document, limit), url),
{
    open_addresses_are_candidates(url);
    pages_are_read_by_their_hosts(document, limit);
    let anchors = anchors_of(document.html, "a[href]"@);
    assert(anchors[at] == dom::dom_select(document.html, "a[href]"@)->0[at]);
    assert(leads_to(anchors[at], document.url, false, url));
    sites_are_not_missed(anchors, document.url, false, limit, at, url);
}

} // verus!
