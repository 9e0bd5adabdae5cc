//! Laws of search pages: which pages are refused and why, which forms can be sent,
//! and which input takes the query.

use crate::browser;
use crate::discovery;
use crate::discovery::{FailureReason, FormMethod};
use crate::discovery_laws;
use crate::dom;
use crate::plain;
use crate::row_laws;
use crate::search_laws;
use crate::text;
use crate::text::CharClass;
use crate::weburl;
use vstd::prelude::*;

verus! {

// ---------------------------------------------------------------------- inputs

/// The value of an attribute, empty where there is none.
pub open spec fn value_of(element: dom::ElementModel, name: Seq<char>) -> Seq<char> {
    match element.attr(name) {
        Some(value) => value,
        None => Seq::empty(),
    }
}

/// An input takes a query: it has no type, or one that is not for hidden values,
/// passwords, files, choices or buttons.
pub open spec fn takes_text(input: dom::ElementModel) -> bool {
    input.attr("type"@) matches Some(kind) ==> {
        &&& !plain::same_word(kind, "hidden"@)
        &&& !plain::same_word(kind, "password"@)
        &&& !plain::same_word(kind, "submit"@)
        &&& !plain::same_word(kind, "button"@)
        &&& !plain::same_word(kind, "file"@)
        &&& !plain::same_word(kind, "checkbox"@)
        &&& !plain::same_word(kind, "radio"@)
    }
}

/// An input is named `q` or `search`, in either case.
pub open spec fn is_named_for_search(input: dom::ElementModel) -> bool {
    plain::same_word(value_of(input, "name"@), "q"@) || plain::same_word(
        value_of(input, "name"@),
        "search"@,
    )
}

/// An input has the type `search`, in either case.
pub open spec fn is_typed_for_search(input: dom::ElementModel) -> bool {
    input.attr("type"@) matches Some(kind) && plain::same_word(kind, "search"@)
}

/// The id or the placeholder of an input mentions `search`.
pub open spec fn mentions_search(input: dom::ElementModel) -> bool {
    plain::mentions(value_of(input, "id"@), "search"@) || plain::mentions(
        value_of(input, "placeholder"@),
        "search"@,
    )
}

proof fn kinds_lower_alike(kind: Seq<char>, word: Seq<char>)
    requires
        plain::is_small(word),
    ensures
        text::lower(kind) == word <==> plain::same_word(kind, word),
{
    plain::small_words_stay(word);
    plain::same_words_lower_alike(kind, word);
}

proof fn kinds_are_small()
    ensures
        plain::is_small("hidden"@),
        plain::is_small("password"@),
        plain::is_small("submit"@),
        plain::is_small("button"@),
        plain::is_small("file"@),
        plain::is_small("checkbox"@),
        plain::is_small("radio"@),
        plain::is_small("search"@),
        plain::is_small("text"@),
        plain::is_small("q"@),
        plain::is_small("get"@),
        plain::is_small("post"@),
{
    reveal_strlit("hidden");
    reveal_strlit("password");
    reveal_strlit("submit");
    reveal_strlit("button");
    reveal_strlit("file");
    reveal_strlit("checkbox");
    reveal_strlit("radio");
    reveal_strlit("search");
    reveal_strlit("text");
    reveal_strlit("q");
    reveal_strlit("get");
    reveal_strlit("post");
}

proof fn text_is_no_other_kind()
    ensures
        "text"@ != "hidden"@,
        "text"@ != "password"@,
        "text"@ != "submit"@,
        "text"@ != "button"@,
        "text"@ != "file"@,
        "text"@ != "checkbox"@,
        "text"@ != "radio"@,
        "text"@ != "search"@,
{
    reveal_strlit("hidden");
    reveal_strlit("password");
    reveal_strlit("submit");
    reveal_strlit("button");
    reveal_strlit("file");
    reveal_strlit("checkbox");
    reveal_strlit("radio");
    reveal_strlit("search");
    reveal_strlit("text");
    assert("text"@[0] == 't' && "file"@[0] == 'f');
}

/// How much an input is worth: nothing where it takes no text; else five points for
/// its name, four for its type, and two for what its id and placeholder mention.
pub proof fn inputs_are_worth_their_marks(input: dom::ElementModel)
    ensures
        !takes_text(input) ==> discovery::input_score(input) == 0,
        takes_text(input) && is_named_for_search(input) ==> discovery::input_score(input) >= 5,
        takes_text(input) && !is_named_for_search(input) ==> discovery::input_score(input) <= 6,
        takes_text(input) && is_typed_for_search(input) ==> discovery::input_score(input) >= 4,
        takes_text(input) && mentions_search(input) ==> discovery::input_score(input) >= 2,
        takes_text(input) ==> discovery::input_score(input) == (if is_named_for_search(input) {
            5int
        } else {
            0
        }) + (if is_typed_for_search(input) {
            4int
        } else {
            0
        }) + (if mentions_search(input) {
            2int
        } else {
            0
        }),
{
    kinds_are_small();
    text_is_no_other_kind();
    let kind = input.attr_or("type"@, "text"@);
    kinds_lower_alike(kind, "hidden"@);
    kinds_lower_alike(kind, "password"@);
    kinds_lower_alike(kind, "submit"@);
    kinds_lower_alike(kind, "button"@);
    kinds_lower_alike(kind, "file"@);
    kinds_lower_alike(kind, "checkbox"@);
    kinds_lower_alike(kind, "radio"@);
    kinds_lower_alike(kind, "search"@);
    plain::small_words_stay("text"@);
    plain::same_words_lower_alike(value_of(input, "name"@), "q"@);
    plain::same_words_lower_alike(value_of(input, "name"@), "search"@);
    plain::mentions_are_occurrences("search"@, value_of(input, "id"@));
    plain::mentions_are_occurrences("search"@, value_of(input, "placeholder"@));
    assert(value_of(input, "name"@) == input.attr_or("name"@, Seq::empty()));
    assert(value_of(input, "id"@) == input.attr_or("id"@, Seq::empty()));
    assert(value_of(input, "placeholder"@) == input.attr_or("placeholder"@, Seq::empty()));
}

proof fn the_best_is_first(inputs: Seq<dom::ElementModel>)
    ensures
        match discovery::best_input(inputs) {
            Some(at) => is_best(inputs, at) && discovery::best_score(inputs)
                == discovery::input_score(inputs[at]) && discovery::best_score(inputs) > 0,
            None => discovery::best_score(inputs) == 0 && forall|i: int|
                0 <= i < inputs.len() ==> discovery::input_score(#[trigger] inputs[i]) == 0,
        },
    decreases inputs.len(),
{
    if inputs.len() > 0 {
        let rest = inputs.drop_last();
        the_best_is_first(rest);
        assert forall|i: int| 0 <= i < rest.len() implies rest[i] == #[trigger] inputs[i] by {}
        match discovery::best_input(inputs) {
            Some(at) => {
                assert forall|i: int| 0 <= i < inputs.len() implies discovery::input_score(
                    #[trigger] inputs[i],
                ) <= discovery::input_score(inputs[at]) && (i < at ==> discovery::input_score(
                    inputs[i],
                ) < discovery::input_score(inputs[at])) by {
                    if i < rest.len() {
                        assert(rest[i] == inputs[i]);
                    }
                }
            },
            None => {
                assert forall|i: int| 0 <= i < inputs.len() implies discovery::input_score(
                    #[trigger] inputs[i],
                ) == 0 by {
                    if i < rest.len() {
                        assert(rest[i] == inputs[i]);
                    }
                }
            },
        }
    }
}

/// The input at a place is worth the most, and the first that is worth so much.
pub open spec fn is_best(inputs: Seq<dom::ElementModel>, at: int) -> bool {
    &&& 0 <= at < inputs.len()
    &&& forall|i: int|
        0 <= i < inputs.len() ==> discovery::input_score(#[trigger] inputs[i])
            <= discovery::input_score(inputs[at]) && (i < at ==> discovery::input_score(inputs[i])
            < discovery::input_score(inputs[at]))
}

// ----------------------------------------------------------------------- forms

/// A form is sent by GET, which is the default, or by POST, in either case.
pub open spec fn is_sent_by(form: dom::ElementModel, method: FormMethod) -> bool {
    match (form.attr("method"@), method) {
        (None, FormMethod::Get) => true,
        (None, FormMethod::Post) => false,
        (Some(word), FormMethod::Get) => plain::same_word(word, "get"@),
        (Some(word), FormMethod::Post) => plain::same_word(word, "post"@),
    }
}

/// A form is sent to an address: its action, resolved against the page, which is a
/// web address of the page's own site without credentials.
pub open spec fn is_sent_to(
    form: dom::ElementModel,
    page: weburl::UrlModel,
    action: weburl::UrlModel,
) -> bool {
    &&& weburl::url_join(page.href, value_of(form, "action"@)) matches Some(target)
    &&& weburl::url_parse(target) == Some(action)
    &&& action.scheme == "http"@ || action.scheme == "https"@
    &&& action.username.len() == 0
    &&& action.password is None
    &&& discovery_laws::same_site(action, page)
}

proof fn methods_are_words(form: dom::ElementModel)
    ensures
        forall|method: FormMethod| #[trigger]
            is_sent_by(form, method) <==> discovery::form_method(form) == Some(method),
{
    kinds_are_small();
    let word = form.attr_or("method"@, "get"@);
    kinds_lower_alike(word, "get"@);
    kinds_lower_alike(word, "post"@);
    plain::small_words_stay("get"@);
    reveal_strlit("get");
    reveal_strlit("post");
    assert("get"@.len() != "post"@.len());
}

proof fn actions_are_own(form: dom::ElementModel, page: weburl::UrlModel)
    ensures
        forall|action: weburl::UrlModel| #[trigger]
            is_sent_to(form, page, action) <==> discovery::form_action(form, page) == Some(action),
{
    assert(value_of(form, "action"@) == form.attr_or("action"@, Seq::empty()));
    if let Some(action) = weburl::joined(page, value_of(form, "action"@)) {
        discovery_laws::sites_are_hosts_and_ports(action, page);
        assert(action.username.len() == 0 <==> action.username =~= Seq::empty());
    }
}

/// A form is a search form exactly if it is sent by GET or POST to the page's own
/// site and one of its first 24 inputs is worth enough: two points on a form of a
/// known shape, four on any other. The query goes to the first input that is worth
/// the most.
pub proof fn forms_for_searching(
    form: dom::ElementModel,
    inputs: Seq<dom::ElementModel>,
    index: nat,
    page: weburl::UrlModel,
    known: bool,
)
    ensures
        ({
            let first = row_laws::front(inputs, 24);
            let enough: int = if known {
                2
            } else {
                4
            };
            match discovery::search_form(form, inputs, index, page, known) {
                Some(found) => {
                    &&& found.form_index == index
                    &&& is_sent_by(form, found.method)
                    &&& is_sent_to(form, page, found.action)
                    &&& is_best(first, found.input.input_index as int)
                    &&& discovery::input_score(first[found.input.input_index as int]) >= enough
                    &&& found.input.name == first[found.input.input_index as int].attr("name"@)
                    &&& found.input.id == first[found.input.input_index as int].attr("id"@)
                },
                None => {
                    ||| forall|method: FormMethod| !#[trigger] is_sent_by(form, method)
                    ||| forall|action: weburl::UrlModel|
                        !#[trigger] is_sent_to(form, page, action)
                    ||| forall|i: int|
                        0 <= i < first.len() ==> discovery::input_score(#[trigger] first[i])
                            < enough
                },
            }
        }),
{
    let first = row_laws::front(inputs, 24);
    assert(discovery::bounded(inputs, 24) =~= first);
    methods_are_words(form);
    actions_are_own(form, page);
    the_best_is_first(first);
    if let Some(found) = discovery::search_form(form, inputs, index, page, known) {
        assert(is_sent_by(form, found.method));
        assert(is_sent_to(form, page, found.action));
    } else {
        if discovery::form_method(form) is None {
            assert forall|method: FormMethod| !#[trigger] is_sent_by(form, method) by {}
        } else if discovery::form_action(form, page) is None {
            assert forall|action: weburl::UrlModel| !#[trigger] is_sent_to(form, page, action) by {}
        } else {
            let enough: int = if known {
                2
            } else {
                4
            };
            assert forall|i: int| 0 <= i < first.len() implies discovery::input_score(
                #[trigger] first[i],
            ) < enough by {
                if let Some(at) = discovery::best_input(first) {
                    assert(discovery::input_score(first[i]) <= discovery::input_score(first[at]));
                }
            }
        }
    }
}

// ----------------------------------------------------------------------- pages

/// A page holds nothing but white space.
pub open spec fn is_blank(html: Seq<char>) -> bool {
    forall|i: int| 0 <= i < html.len() ==> text::is_white(#[trigger] html[i])
}

/// A page asks for proof of a human visitor.
pub open spec fn is_challenge(html: Seq<char>) -> bool {
    ||| plain::mentions_early(html, "cf-chl-"@, 400_000)
    ||| plain::mentions_early(html, "g-recaptcha"@, 400_000)
    ||| plain::mentions_early(html, "hcaptcha"@, 400_000)
    ||| plain::mentions_early(html, "verify you are human"@, 400_000)
    ||| plain::mentions_early(html, "checking your browser"@, 400_000)
    ||| plain::mentions_early(html, "attention required! | cloudflare"@, 400_000)
    ||| plain::mentions_early(html, "id=\"captcha"@, 400_000)
    ||| plain::mentions_early(html, "class=\"captcha"@, 400_000)
}

/// A page denies access.
pub open spec fn is_denial(html: Seq<char>) -> bool {
    ||| plain::mentions_early(html, "<title>access denied"@, 400_000)
    ||| plain::mentions_early(html, ">access denied<"@, 400_000)
    ||| plain::mentions_early(html, "request blocked"@, 400_000)
    ||| plain::mentions_early(html, "you don't have permission to access"@, 400_000)
    ||| plain::mentions_early(html, "you do not have permission to access"@, 400_000)
}

/// An anchor is a magnet link: its address begins with `magnet:`, in any case.
pub open spec fn begins_a_magnet(anchor: dom::ElementModel) -> bool {
    plain::stands("magnet:"@, value_of(anchor, "href"@), 0)
}

/// The address of an anchor, a space, and its text.
pub open spec fn link_words(anchor: dom::ElementModel) -> Seq<char> {
    value_of(anchor, "href"@) + " "@ + anchor.brief_text()
}

/// An anchor belongs to the navigation of a torrent index.
pub open spec fn is_navigation(anchor: dom::ElementModel) -> bool {
    ||| plain::mentions(link_words(anchor), "browse"@)
    ||| plain::mentions(link_words(anchor), "recent"@)
    ||| plain::mentions(link_words(anchor), "top 100"@)
    ||| plain::mentions(link_words(anchor), "top/"@)
    ||| plain::mentions(link_words(anchor), "category"@)
    ||| plain::mentions(link_words(anchor), "torrent"@)
}

/// A page is about torrents: one of its first 600 links is a magnet link, or it
/// mentions torrents and one of those links is navigation.
pub open spec fn is_about_torrents(html: Seq<char>) -> bool {
    let anchors = discovery_laws::anchors_of(html, "a[href]"@);
    ||| exists|i: int| 0 <= i < anchors.len() && begins_a_magnet(#[trigger] anchors[i])
    ||| plain::mentions_early(html, "torrent"@, 400_000) && exists|i: int|
        0 <= i < anchors.len() && is_navigation(#[trigger] anchors[i])
}

proof fn challenge_marks_are_early(html: Seq<char>)
    ensures
        discovery::any_occurs(discovery::challenge_marks(), discovery::marked_text(html))
            <==> is_challenge(html),
{
    let marks = discovery::challenge_marks();
    let front = discovery::marked_text(html);
    reveal_strlit("cf-chl-");
    reveal_strlit("g-recaptcha");
    reveal_strlit("hcaptcha");
    reveal_strlit("verify you are human");
    reveal_strlit("checking your browser");
    reveal_strlit("attention required! | cloudflare");
    reveal_strlit("id=\"captcha");
    reveal_strlit("class=\"captcha");
    search_laws::early_mentions_are_marks(html, marks[0]);
    search_laws::early_mentions_are_marks(html, marks[1]);
    search_laws::early_mentions_are_marks(html, marks[2]);
    search_laws::early_mentions_are_marks(html, marks[3]);
    search_laws::early_mentions_are_marks(html, marks[4]);
    search_laws::early_mentions_are_marks(html, marks[5]);
    search_laws::early_mentions_are_marks(html, marks[6]);
    search_laws::early_mentions_are_marks(html, marks[7]);
    if is_challenge(html) {
        assert(text::occurs(marks[0], front) || text::occurs(marks[1], front) || text::occurs(
            marks[2],
            front,
        ) || text::occurs(marks[3], front) || text::occurs(marks[4], front) || text::occurs(
            marks[5],
            front,
        ) || text::occurs(marks[6], front) || text::occurs(marks[7], front));
    }
}

proof fn denial_marks_are_early(html: Seq<char>)
    ensures
        discovery::any_occurs(discovery::denial_marks(), discovery::marked_text(html))
            <==> is_denial(html),
{
    let marks = discovery::denial_marks();
    let front = discovery::marked_text(html);
    reveal_strlit("<title>access denied");
    reveal_strlit(">access denied<");
    reveal_strlit("request blocked");
    reveal_strlit("you don't have permission to access");
    reveal_strlit("you do not have permission to access");
    search_laws::early_mentions_are_marks(html, marks[0]);
    search_laws::early_mentions_are_marks(html, marks[1]);
    search_laws::early_mentions_are_marks(html, marks[2]);
    search_laws::early_mentions_are_marks(html, marks[3]);
    search_laws::early_mentions_are_marks(html, marks[4]);
    if is_denial(html) {
        assert(text::occurs(marks[0], front) || text::occurs(marks[1], front) || text::occurs(
            marks[2],
            front,
        ) || text::occurs(marks[3], front) || text::occurs(marks[4], front));
    }
}

proof fn blank_pages_trim_to_nothing(html: Seq<char>)
    ensures
        text::trimmed(html, CharClass::White).len() == 0 <==> is_blank(html),
{
    text::run_is_maximal(html, CharClass::White);
    let size = text::run(html, CharClass::White) as int;
    let rest = text::strip_start(html, CharClass::White);
    if is_blank(html) {
        assert(size == html.len()) by {
            if size < html.len() {
                assert(text::is_white(html[size]));
            }
        }
        assert(rest =~= Seq::empty());
    } else {
        assert(size < html.len()) by {
            if size >= html.len() {
                assert forall|i: int| 0 <= i < html.len() implies text::is_white(
                    #[trigger] html[i],
                ) by {
                    assert(CharClass::White.has(html[i]));
                }
            }
        }
        assert(rest.len() > 0 && !text::is_white(rest[0]));
        solid_fronts_stay(rest);
    }
}

proof fn solid_fronts_stay(value: Seq<char>)
    requires
        value.len() > 0,
        !text::is_white(value[0]),
    ensures
        text::strip_end(value, CharClass::White).len() > 0,
    decreases value.len(),
{
    if text::is_white(value.last()) {
        assert(value.len() > 1);
        assert(value.drop_last()[0] == value[0]);
        solid_fronts_stay(value.drop_last());
    }
}

proof fn magnet_anchors_begin(anchor: dom::ElementModel)
    ensures
        discovery::is_magnet_anchor(anchor) <==> begins_a_magnet(anchor),
{
    let href = value_of(anchor, "href"@);
    let lowered = text::lower(href);
    let word = "magnet:"@;
    reveal_strlit("magnet:");
    assert(href == anchor.attr_or("href"@, Seq::empty()));
    if text::stands_at(word, lowered, 0) {
        assert forall|i: int| 0 <= i < word.len() implies plain::same_letter(
            #[trigger] word[i],
            href[0 + i],
        ) by {
            assert(lowered.subrange(0, word.len() as int)[i] == word[i]);
        }
    }
    if plain::stands(word, href, 0) {
        assert(lowered.subrange(0, word.len() as int) =~= word) by {
            assert forall|i: int| 0 <= i < word.len() implies lowered[i] == word[i] by {
                assert(plain::same_letter(word[i], href[0 + i]));
            }
        }
    }
}

proof fn index_anchors_navigate(anchor: dom::ElementModel)
    ensures
        discovery::is_index_anchor(anchor) <==> is_navigation(anchor),
{
    let words = discovery::navigation_words();
    let both = link_words(anchor);
    let lowered = text::lower(both);
    assert(value_of(anchor, "href"@) == anchor.attr_or("href"@, Seq::empty()));
    reveal_strlit("browse");
    reveal_strlit("recent");
    reveal_strlit("top 100");
    reveal_strlit("top/");
    reveal_strlit("category");
    reveal_strlit("torrent");
    plain::mentions_are_occurrences(words[0], both);
    plain::mentions_are_occurrences(words[1], both);
    plain::mentions_are_occurrences(words[2], both);
    plain::mentions_are_occurrences(words[3], both);
    plain::mentions_are_occurrences(words[4], both);
    plain::mentions_are_occurrences(words[5], both);
    if is_navigation(anchor) {
        assert(text::occurs(words[0], lowered) || text::occurs(words[1], lowered) || text::occurs(
            words[2],
            lowered,
        ) || text::occurs(words[3], lowered) || text::occurs(words[4], lowered) || text::occurs(
            words[5],
            lowered,
        ));
    }
}

proof fn contexts_are_about_torrents(html: Seq<char>)
    ensures
        discovery::torrent_context(
            discovery::bounded(
                discovery::bounded(dom::selected(html, "a[href]"@), 600),
                600,
            ),
            discovery::marked_text(html),
        ) <==> is_about_torrents(html),
{
    let anchors = discovery_laws::anchors_of(html, "a[href]"@);
    assert(discovery::bounded(
        discovery::bounded(dom::selected(html, "a[href]"@), 600),
        600,
    ) =~= anchors);
    reveal_strlit("torrent");
    search_laws::early_mentions_are_marks(html, "torrent"@);
    assert forall|i: int| 0 <= i < anchors.len() implies (discovery::is_magnet_anchor(
        #[trigger] anchors[i],
    ) <==> begins_a_magnet(anchors[i])) && (discovery::is_index_anchor(anchors[i])
        <==> is_navigation(anchors[i])) by {
        magnet_anchors_begin(anchors[i]);
        index_anchors_navigate(anchors[i]);
    }
}

/// The first 32 forms of a page with their inputs.
pub open spec fn forms_of(html: Seq<char>) -> Seq<dom::BranchModel> {
    row_laws::front(dom::selected_within(html, "form"@, seq!["input"@]), 32)
}

/// The search form that the form at a place is, if it is one.
pub open spec fn form_at(document: browser::DocumentModel, at: int, known: bool) -> Option<
    discovery::FormModel,
> {
    discovery::search_form(
        forms_of(document.html)[at].element,
        forms_of(document.html)[at].parts[0],
        at as nat,
        document.url,
        known,
    )
}

/// A page that can be used as far as its text goes: not blank, no challenge, no
/// denial, and about torrents.
pub open spec fn is_open_page(html: Seq<char>) -> bool {
    !is_blank(html) && !is_challenge(html) && !is_denial(html) && is_about_torrents(html)
}

/// Pages are refused for what they say, in this order: blank ones as malformed,
/// challenges, denials, and those that are not about torrents; and an accepted page
/// is none of these.
pub proof fn pages_are_refused_for_what_they_say(document: browser::DocumentModel)
    ensures
        is_blank(document.html) ==> discovery::page_outcome(document) == Err::<
            discovery::FormModel,
            FailureReason,
        >(FailureReason::MalformedPage),
        !is_blank(document.html) && is_challenge(document.html) ==> discovery::page_outcome(
            document,
        ) == Err::<discovery::FormModel, FailureReason>(FailureReason::Challenge),
        !is_blank(document.html) && !is_challenge(document.html) && is_denial(document.html)
            ==> discovery::page_outcome(document) == Err::<discovery::FormModel, FailureReason>(
            FailureReason::Blocked,
        ),
        !is_blank(document.html) && !is_challenge(document.html) && !is_denial(document.html)
            && !is_about_torrents(document.html) ==> discovery::page_outcome(document) == Err::<
            discovery::FormModel,
            FailureReason,
        >(FailureReason::UnsupportedPage),
        discovery::page_outcome(document) is Ok ==> is_open_page(document.html),
{
    blank_pages_trim_to_nothing(document.html);
    challenge_marks_are_early(document.html);
    denial_marks_are_early(document.html);
    contexts_are_about_torrents(document.html);
}

/// A form of a page has a shape.
pub open spec fn has_shape(html: Seq<char>, at: int, shape: Seq<char>) -> bool {
    dom::dom_matches(html, "form"@, shape) matches Some(marks) && 0 <= at < marks.len() && at < 32
        && marks[at]
}

/// A form of a page has a shape and is a search form as one of a known shape.
pub open spec fn fits_shape(document: browser::DocumentModel, at: int, shape: Seq<char>) -> bool {
    0 <= at < forms_of(document.html).len() && has_shape(document.html, at, shape) && form_at(
        document,
        at,
        true,
    ) is Some
}

/// The form at a place is the first of a page that fits a shape.
pub open spec fn is_first_of_shape(
    document: browser::DocumentModel,
    at: int,
    shape: Seq<char>,
) -> bool {
    fits_shape(document, at, shape) && forall|i: int|
        0 <= i < at ==> !#[trigger] fits_shape(document, i, shape)
}

/// No form of a page fits a shape.
pub open spec fn none_of_shape(document: browser::DocumentModel, shape: Seq<char>) -> bool {
    forall|i: int| !#[trigger] fits_shape(document, i, shape)
}

proof fn marked_forms_fit(
    document: browser::DocumentModel,
    shape: Seq<char>,
    marks: Seq<bool>,
    from: int,
)
    requires
        marks == discovery::bounded(dom::matched(document.html, "form"@, shape), 32),
        0 <= from,
    ensures
        match discovery::form_among(forms_of(document.html), Some(marks), document.url, from) {
            Some(form) => exists|at: int|
                from <= at && #[trigger] fits_shape(document, at, shape) && (forall|i: int|
                    from <= i < at ==> !#[trigger] fits_shape(document, i, shape)) && form_at(
                    document,
                    at,
                    true,
                ) == Some(form),
            None => forall|i: int| from <= i ==> !#[trigger] fits_shape(document, i, shape),
        },
    decreases forms_of(document.html).len() - from,
{
    let forms = forms_of(document.html);
    if from < forms.len() {
        assert(has_shape(document.html, from, shape) <==> from < marks.len() && marks[from]);
        marked_forms_fit(document, shape, marks, from + 1);
        if fits_shape(document, from, shape) {
        } else if let Some(form) = discovery::form_among(
            forms,
            Some(marks),
            document.url,
            from + 1,
        ) {
            let at = choose|at: int|
                from + 1 <= at && #[trigger] fits_shape(document, at, shape) && (forall|i: int|
                    from + 1 <= i < at ==> !#[trigger] fits_shape(document, i, shape)) && form_at(
                    document,
                    at,
                    true,
                ) == Some(form);
            assert forall|i: int| from <= i < at implies !#[trigger] fits_shape(
                document,
                i,
                shape,
            ) by {
                if i > from {
                    assert(from + 1 <= i);
                }
            }
        } else {
            assert forall|i: int| from <= i implies !#[trigger] fits_shape(document, i, shape) by {
                if i > from {
                    assert(from + 1 <= i);
                }
            }
        }
    }
}

/// The form at a place is a search form, whatever its shape.
pub open spec fn fits_any(document: browser::DocumentModel, at: int) -> bool {
    0 <= at < forms_of(document.html).len() && form_at(document, at, false) is Some
}

proof fn other_forms_fit(document: browser::DocumentModel, from: int)
    requires
        0 <= from,
    ensures
        match discovery::form_among(forms_of(document.html), None, document.url, from) {
            Some(form) => exists|at: int|
                from <= at && #[trigger] fits_any(document, at) && (forall|i: int|
                    from <= i < at ==> !#[trigger] fits_any(document, i)) && form_at(
                    document,
                    at,
                    false,
                ) == Some(form),
            None => forall|i: int| from <= i ==> !#[trigger] fits_any(document, i),
        },
    decreases forms_of(document.html).len() - from,
{
    let forms = forms_of(document.html);
    if from < forms.len() {
        other_forms_fit(document, from + 1);
        if fits_any(document, from) {
        } else if let Some(form) = discovery::form_among(forms, None, document.url, from + 1) {
            let at = choose|at: int|
                from + 1 <= at && #[trigger] fits_any(document, at) && (forall|i: int|
                    from + 1 <= i < at ==> !#[trigger] fits_any(document, i)) && form_at(
                    document,
                    at,
                    false,
                ) == Some(form);
            assert forall|i: int| from <= i < at implies !#[trigger] fits_any(document, i) by {
                if i > from {
                    assert(from + 1 <= i);
                }
            }
        } else {
            assert forall|i: int| from <= i implies !#[trigger] fits_any(document, i) by {
                if i > from {
                    assert(from + 1 <= i);
                }
            }
        }
    }
}

/// The form of an open page that is used: the first of the first shape that any
/// form fits, in the order `form#searchform`, an action with `search`, an action
/// with `/s/`, `form.search`; or else the first that is a search form whatever its
/// shape.
pub open spec fn is_used(document: browser::DocumentModel, at: int, known: bool) -> bool {
    let first = "form#searchform"@;
    let second = "form[action*='search']"@;
    let third = "form[action*='/s/']"@;
    let fourth = "form.search"@;
    ||| known && is_first_of_shape(document, at, first)
    ||| known && is_first_of_shape(document, at, second) && none_of_shape(document, first)
    ||| known && is_first_of_shape(document, at, third) && none_of_shape(document, second)
        && none_of_shape(document, first)
    ||| known && is_first_of_shape(document, at, fourth) && none_of_shape(document, third)
        && none_of_shape(document, second) && none_of_shape(document, first)
    ||| !known && fits_any(document, at) && (forall|i: int|
        0 <= i < at ==> !#[trigger] fits_any(document, i)) && none_of_shape(document, fourth)
        && none_of_shape(document, third) && none_of_shape(document, second) && none_of_shape(
        document,
        first,
    )
}

/// What one shape decides: the first form that fits it, or else what the shapes
/// after it decide.
proof fn shape_decides(
    document: browser::DocumentModel,
    known: Seq<Seq<bool>>,
    shape: Seq<char>,
    at: int,
)
    requires
        known.len() > 0,
        known[0] == discovery::bounded(dom::matched(document.html, "form"@, shape), 32),
    ensures
        is_first_of_shape(document, at, shape) ==> discovery::form_of(
            forms_of(document.html),
            known,
            document.url,
        ) == form_at(document, at, true),
        none_of_shape(document, shape) ==> discovery::form_of(
            forms_of(document.html),
            known,
            document.url,
        ) == discovery::form_of(forms_of(document.html), known.drop_first(), document.url),
{
    marked_forms_fit(document, shape, known[0], 0);
    match discovery::form_among(forms_of(document.html), Some(known[0]), document.url, 0) {
        Some(form) => {
            let found = choose|k: int|
                0 <= k && #[trigger] fits_shape(document, k, shape) && (forall|i: int|
                    0 <= i < k ==> !#[trigger] fits_shape(document, i, shape)) && form_at(
                    document,
                    k,
                    true,
                ) == Some(form);
            assert(fits_shape(document, found, shape));
            if is_first_of_shape(document, at, shape) {
                assert(!(found < at));
                assert(!(at < found));
            }
        },
        None => {
            if is_first_of_shape(document, at, shape) {
                assert(fits_shape(document, at, shape));
            }
        },
    }
}

/// An open page is accepted for the form that is used on it.
pub proof fn open_pages_are_accepted(document: browser::DocumentModel, at: int, known: bool)
    requires
        is_open_page(document.html),
        is_used(document, at, known),
    ensures
        discovery::page_outcome(document) == Ok::<discovery::FormModel, FailureReason>(
            form_at(document, at, known)->0,
        ),
{
    let html = document.html;
    blank_pages_trim_to_nothing(html);
    challenge_marks_are_early(html);
    denial_marks_are_early(html);
    contexts_are_about_torrents(html);
    let forms = forms_of(html);
    let all = dom::selected_within(html, "form"@, seq!["input"@]);
    assert(discovery::bounded(discovery::bounded(all, 32), 32) =~= forms);
    let known_marks = discovery::known_marks(html);
    let a = known_marks.drop_first();
    let b = a.drop_first();
    let c = b.drop_first();
    let d = c.drop_first();
    assert(a[0] == known_marks[1] && b[0] == known_marks[2] && c[0] == known_marks[3]);
    assert(d.len() == 0);
    shape_decides(document, known_marks, "form#searchform"@, at);
    shape_decides(document, a, "form[action*='search']"@, at);
    shape_decides(document, b, "form[action*='/s/']"@, at);
    shape_decides(document, c, "form.search"@, at);
    other_forms_fit(document, 0);
    if !known {
        assert(discovery::form_of(forms, d, document.url) == discovery::form_among(
            forms,
            None,
            document.url,
            0,
        ));
        match discovery::form_among(forms, None, document.url, 0) {
            Some(form) => {
                let found = choose|k: int|
                    0 <= k && #[trigger] fits_any(document, k) && (forall|i: int|
                        0 <= i < k ==> !#[trigger] fits_any(document, i)) && form_at(
                        document,
                        k,
                        false,
                    ) == Some(form);
                assert(fits_any(document, found));
                assert(!(found < at));
                assert(!(at < found));
            },
            None => {
                assert(!fits_any(document, at));
            },
        }
    }
}

/// An open page none of whose first 32 forms is a search form is unsupported.
pub proof fn pages_without_a_form_are_unsupported(document: browser::DocumentModel)
    requires
        is_open_page(document.html),
        none_of_shape(document, "form#searchform"@),
        none_of_shape(document, "form[action*='search']"@),
        none_of_shape(document, "form[action*='/s/']"@),
        none_of_shape(document, "form.search"@),
        forall|i: int| !#[trigger] fits_any(document, i),
    ensures
        discovery::page_outcome(document) == Err::<discovery::FormModel, FailureReason>(
            FailureReason::UnsupportedPage,
        ),
{
    let html = document.html;
    blank_pages_trim_to_nothing(html);
    challenge_marks_are_early(html);
    denial_marks_are_early(html);
    contexts_are_about_torrents(html);
    let forms = forms_of(html);
    let all = dom::selected_within(html, "form"@, seq!["input"@]);
    assert(discovery::bounded(discovery::bounded(all, 32), 32) =~= forms);
    let known_marks = discovery::known_marks(html);
    let a = known_marks.drop_first();
    let b = a.drop_first();
    let c = b.drop_first();
    let d = c.drop_first();
    assert(a[0] == known_marks[1] && b[0] == known_marks[2] && c[0] == known_marks[3]);
    assert(d.len() == 0);
    shape_decides(document, known_marks, "form#searchform"@, 0);
    shape_decides(document, a, "form[action*='search']"@, 0);
    shape_decides(document, b, "form[action*='/s/']"@, 0);
    shape_decides(document, c, "form.search"@, 0);
    other_forms_fit(document, 0);
    assert(discovery::form_of(forms, d, document.url) == discovery::form_among(
        forms,
        None,
        document.url,
        0,
    ));
    if let Some(form) = discovery::form_among(forms, None, document.url, 0) {
        let found = choose|k: int|
            0 <= k && #[trigger] fits_any(document, k) && (forall|i: int|
                0 <= i < k ==> !#[trigger] fits_any(document, i)) && form_at(document, k, false)
                == Some(form);
        assert(fits_any(document, found));
    }
}

/// An open page with a single form that is sent by GET or POST to its own site and
/// holds a text input named `q` or `search`, in either case, is accepted with that
/// form and that input, where no other input is worth anything.
pub proof fn query_inputs_are_found(
    document: browser::DocumentModel,
    method: FormMethod,
    action: weburl::UrlModel,
    at: int,
)
    requires
        is_open_page(document.html),
        forms_of(document.html).len() == 1,
        is_sent_by(forms_of(document.html)[0].element, method),
        is_sent_to(forms_of(document.html)[0].element, document.url, action),
        0 <= at < 24,
        at < forms_of(document.html)[0].parts[0].len(),
        takes_text(forms_of(document.html)[0].parts[0][at]),
        is_named_for_search(forms_of(document.html)[0].parts[0][at]),
        forall|i: int|
            0 <= i < forms_of(document.html)[0].parts[0].len() && i != at ==> !takes_text(
                #[trigger] forms_of(document.html)[0].parts[0][i],
            ) || (!is_named_for_search(forms_of(document.html)[0].parts[0][i])
                && !is_typed_for_search(forms_of(document.html)[0].parts[0][i])
                && !mentions_search(forms_of(document.html)[0].parts[0][i])),
    ensures
        discovery::page_outcome(document) == Ok::<discovery::FormModel, FailureReason>(
            discovery::FormModel {
                form_index: 0,
                input: discovery::InputModel {
                    input_index: at as nat,
                    name: forms_of(document.html)[0].parts[0][at].attr("name"@),
                    id: forms_of(document.html)[0].parts[0][at].attr("id"@),
                },
                action,
                method,
            },
        ),
{
    let form = forms_of(document.html)[0];
    let inputs = form.parts[0];
    let first = row_laws::front(inputs, 24);
    methods_are_words(form.element);
    actions_are_own(form.element, document.url);
    assert(is_sent_by(form.element, method) && is_sent_to(form.element, document.url, action));
    assert(first[at] == inputs[at]);
    inputs_are_worth_their_marks(inputs[at]);
    assert forall|i: int| 0 <= i < first.len() && i != at implies discovery::input_score(
        #[trigger] first[i],
    ) == 0 by {
        assert(first[i] == inputs[i]);
        inputs_are_worth_their_marks(inputs[i]);
    }
    forms_for_searching(form.element, inputs, 0, document.url, true);
    forms_for_searching(form.element, inputs, 0, document.url, false);
    assert(discovery::input_score(first[at]) >= 5);
    let expected = discovery::FormModel {
        form_index: 0,
        input: discovery::InputModel {
            input_index: at as nat,
            name: inputs[at].attr("name"@),
            id: inputs[at].attr("id"@),
        },
        action,
        method,
    };
    single_form_is(document, true, expected, at);
    single_form_is(document, false, expected, at);
    assert(fits_any(document, 0));
    if fits_shape(document, 0, "form#searchform"@) {
        assert(is_first_of_shape(document, 0, "form#searchform"@));
        open_pages_are_accepted(document, 0, true);
    } else if fits_shape(document, 0, "form[action*='search']"@) {
        assert(is_first_of_shape(document, 0, "form[action*='search']"@));
        open_pages_are_accepted(document, 0, true);
    } else if fits_shape(document, 0, "form[action*='/s/']"@) {
        assert(is_first_of_shape(document, 0, "form[action*='/s/']"@));
        open_pages_are_accepted(document, 0, true);
    } else if fits_shape(document, 0, "form.search"@) {
        assert(is_first_of_shape(document, 0, "form.search"@));
        open_pages_are_accepted(document, 0, true);
    } else {
        open_pages_are_accepted(document, 0, false);
    }
}

proof fn single_form_is(
    document: browser::DocumentModel,
    known: bool,
    expected: discovery::FormModel,
    at: int,
)
    requires
        forms_of(document.html).len() == 1,
        expected.form_index == 0,
        is_sent_by(forms_of(document.html)[0].element, expected.method),
        is_sent_to(forms_of(document.html)[0].element, document.url, expected.action),
        0 <= at < row_laws::front(forms_of(document.html)[0].parts[0], 24).len(),
        discovery::input_score(row_laws::front(forms_of(document.html)[0].parts[0], 24)[at]) >= 5,
        forall|i: int|
            0 <= i < row_laws::front(forms_of(document.html)[0].parts[0], 24).len() && i != at
                ==> discovery::input_score(
                #[trigger] row_laws::front(forms_of(document.html)[0].parts[0], 24)[i],
            ) == 0,
        expected.input.input_index == at,
        expected.input.name == row_laws::front(
            forms_of(document.html)[0].parts[0],
            24,
        )[at].attr("name"@),
        expected.input.id == row_laws::front(forms_of(document.html)[0].parts[0], 24)[at].attr(
            "id"@,
        ),
    ensures
        form_at(document, 0, known) == Some(expected),
{
    let form = forms_of(document.html)[0];
    let inputs = form.parts[0];
    let first = row_laws::front(inputs, 24);
    methods_are_words(form.element);
    actions_are_own(form.element, document.url);
    forms_for_searching(form.element, inputs, 0, document.url, known);
    assert(discovery::form_method(form.element) == Some(expected.method));
    assert(discovery::form_action(form.element, document.url) == Some(expected.action));
    match form_at(document, 0, known) {
        Some(found) => {
            assert(discovery::form_method(form.element) == Some(found.method));
            assert(discovery::form_action(form.element, document.url) == Some(found.action));
            let k = found.input.input_index as int;
            if k != at {
                assert(discovery::input_score(first[at]) <= discovery::input_score(first[k]));
            }
            assert(found.input == expected.input);
            assert(found == expected);
        },
        None => {
            assert(discovery::input_score(first[at]) >= 4);
        },
    }
}

} // verus!
