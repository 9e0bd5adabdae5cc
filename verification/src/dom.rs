//! Rendered documents as the library reads them: elements that a CSS selector
//! finds, with their attributes and text, as the `scraper` crate reports them.

use crate::text;
use crate::text::{concat_first, join_first, same_text};
use ::scraper::{ElementRef, Html, Selector};
use vstd::prelude::*;

verus! {

/// An element by its attributes and its text nodes.
#[verifier::ext_equal]
pub struct ElementModel {
    pub attributes: Seq<(Seq<char>, Option<Seq<char>>)>,
    pub text: Seq<Seq<char>>,
}

/// An element: the local name of each attribute with the value that a lookup
/// of the name gives, and the text nodes below the element in order.
#[derive(Debug, PartialEq, Eq)]
pub struct Element {
    pub attributes: Vec<(String, Option<String>)>,
    pub text: Vec<String>,
}

/// Attributes by their characters.
pub open spec fn attribute_views(attributes: Seq<(String, Option<String>)>) -> Seq<
    (Seq<char>, Option<Seq<char>>),
> {
    Seq::new(attributes.len(), |i: int| (attributes[i].0@, text::opt_view(attributes[i].1)))
}

impl View for Element {
    type V = ElementModel;

    open spec fn view(&self) -> ElementModel {
        ElementModel {
            attributes: attribute_views(self.attributes@),
            text: text::views(self.text@),
        }
    }
}

/// Elements by their models.
pub open spec fn element_views(elements: Seq<Element>) -> Seq<ElementModel> {
    Seq::new(elements.len(), |i: int| elements[i]@)
}

/// An element together with the descendants that several selectors find.
#[verifier::ext_equal]
pub struct BranchModel {
    pub element: ElementModel,
    pub parts: Seq<Seq<ElementModel>>,
}

/// An element, and for each of several selectors the descendants it finds.
#[derive(Debug, PartialEq, Eq)]
pub struct Branch {
    pub element: Element,
    pub parts: Vec<Vec<Element>>,
}

impl View for Branch {
    type V = BranchModel;

    open spec fn view(&self) -> BranchModel {
        BranchModel {
            element: self.element@,
            parts: part_views(self.parts@),
        }
    }
}

/// Branches by their models.
pub open spec fn branch_views(branches: Seq<Branch>) -> Seq<BranchModel> {
    Seq::new(branches.len(), |i: int| branches[i]@)
}

/// Selector texts by their characters.
pub open spec fn selector_views(selectors: Seq<&str>) -> Seq<Seq<char>> {
    Seq::new(selectors.len(), |i: int| selectors[i]@)
}

/// At most `limit`, as far as there are that many.
pub open spec fn at_most(limit: int, size: nat) -> int {
    if limit < size {
        limit
    } else {
        size as int
    }
}

/// The first elements, at most `limit`.
pub open spec fn first_of<T>(items: Seq<T>, limit: int) -> Seq<T> {
    items.take(at_most(limit, items.len()))
}

// ------------------------------------------------------- what the crate gives

/// What `scraper::Html::select` finds in a document, none where the selector
/// does not parse.
pub uninterp spec fn dom_select(html: Seq<char>, css: Seq<char>) -> Option<Seq<ElementModel>>;

/// What `scraper::ElementRef::select` finds, for each of several inner
/// selectors, below each element that an outer selector finds.
pub uninterp spec fn dom_select_below(
    html: Seq<char>,
    css: Seq<char>,
    inner: Seq<Seq<char>>,
) -> Option<Seq<Seq<Seq<ElementModel>>>>;

/// Which of the elements that one selector finds another selector matches.
pub uninterp spec fn dom_matches(html: Seq<char>, css: Seq<char>, test: Seq<char>) -> Option<
    Seq<bool>,
>;

/// `scraper::Html::parse_document` and `scraper::Html::select`, which looks for the
/// next element only when it is asked for: no more than `limit` are. The elements
/// depend on the two texts alone. How HTML is parsed and which elements a
/// selector finds is left to the crate.
#[verifier::external_body]
fn select_elements(html: &str, css: &str, limit: usize) -> (r: Option<Vec<Element>>)
    ensures
        match r {
            Some(elements) => dom_select(html@, css@) matches Some(all) && element_views(elements@)
                == first_of(all, limit as int),
            None => dom_select(html@, css@) is None,
        },
{
    let html = Html::parse_document(html);
    let selector = Selector::parse(css).ok()?;
    let read = |e: ElementRef| Element {
        attributes: e.value().attrs().map(
            |(name, _)| (name.to_string(), e.attr(name).map(str::to_string)),
        ).collect(),
        text: e.text().map(str::to_string).collect(),
    };
    Some(html.select(&selector).take(limit).map(read).collect())
}

/// Lists of elements by their models.
pub open spec fn part_views(parts: Seq<Vec<Element>>) -> Seq<Seq<ElementModel>> {
    Seq::new(parts.len(), |i: int| element_views(parts[i]@))
}

/// Lists of elements for several elements, by their models.
pub open spec fn all_part_views(all: Seq<Vec<Vec<Element>>>) -> Seq<Seq<Seq<ElementModel>>> {
    Seq::new(all.len(), |i: int| part_views(all[i]@))
}

/// `scraper::ElementRef::select` below each of the first `limit` elements that
/// `scraper::Html::select` finds, once for each inner selector. The result
/// depends on the texts alone and has one list for each inner selector; there is
/// none where a selector does not parse.
#[verifier::external_body]
fn select_below(html: &str, css: &str, inner: &[&str], limit: usize) -> (r: Option<
    Vec<Vec<Vec<Element>>>,
>)
    ensures
        match r {
            Some(found) => (dom_select_below(html@, css@, selector_views(inner@)) matches Some(all)
                && all_part_views(found@) == first_of(all, limit as int)) && forall|i: int|
                0 <= i < found@.len() ==> #[trigger] found@[i]@.len() == inner@.len(),
            None => dom_select_below(html@, css@, selector_views(inner@)) is None,
        },
{
    let html = Html::parse_document(html);
    let outer = Selector::parse(css).ok()?;
    let inner: Vec<_> = inner.iter().map(|s| Selector::parse(s).ok()).collect::<Option<_>>()?;
    Some(html.select(&outer).take(limit).map(|e| inner.iter().map(|s| e.select(s).map(|e| Element {
        attributes: e.value().attrs().map(
            |(name, _)| (name.to_string(), e.attr(name).map(str::to_string))
        ).collect(),
        text: e.text().map(str::to_string).collect(),
    }).collect()).collect()).collect())
}

/// `scraper::Selector::matches` on each of the first `limit` elements that
/// `scraper::Html::select` finds. The answers depend on the texts alone; there are
/// none where a selector does not parse.
#[verifier::external_body]
fn match_elements(html: &str, css: &str, test: &str, limit: usize) -> (r: Option<Vec<bool>>)
    ensures
        match r {
            Some(answers) => dom_matches(html@, css@, test@) matches Some(all) && answers@
                == first_of(all, limit as int),
            None => dom_matches(html@, css@, test@) is None,
        },
{
    let html = Html::parse_document(html);
    let outer = Selector::parse(css).ok()?;
    let test = Selector::parse(test).ok()?;
    Some(html.select(&outer).take(limit).map(|e| test.matches(&e)).collect())
}

// -------------------------------------------------------------------- queries

/// The elements that a selector finds; none where it does not parse.
pub open spec fn selected(html: Seq<char>, css: Seq<char>) -> Seq<ElementModel> {
    match dom_select(html, css) {
        Some(elements) => elements,
        None => Seq::empty(),
    }
}

/// The first elements that a selector finds, in document order and at most
/// `limit`.
pub fn select_first(html: &str, css: &str, limit: usize) -> (r: Vec<Element>)
    ensures
        element_views(r@) == first_of(selected(html@, css@), limit as int),
{
    match select_elements(html, css, limit) {
        Some(elements) => elements,
        None => {
            let none: Vec<Element> = Vec::new();
            proof {
                assert(element_views(none@) =~= first_of(selected(html@, css@), limit as int));
            }
            none
        },
    }
}

/// The elements that a selector finds with what inner selectors find below
/// them; none where a selector does not parse.
pub open spec fn selected_within(html: Seq<char>, css: Seq<char>, inner: Seq<Seq<char>>) -> Seq<
    BranchModel,
> {
    match (dom_select(html, css), dom_select_below(html, css, inner)) {
        (Some(elements), Some(parts)) => Seq::new(
            at_most(elements.len() as int, parts.len()) as nat,
            |i: int| BranchModel { element: elements[i], parts: parts[i] },
        ),
        _ => Seq::empty(),
    }
}

/// The first elements that a selector finds, at most `limit`, each with what
/// `inner` finds below it.
pub fn select_within(html: &str, css: &str, inner: &[&str], limit: usize) -> (r: Vec<Branch>)
    ensures
        branch_views(r@) == first_of(
            selected_within(html@, css@, selector_views(inner@)),
            limit as int,
        ),
        forall|i: int| 0 <= i < r@.len() ==> #[trigger] r@[i].parts@.len() == inner@.len(),
{
    let ghost expected = first_of(
        selected_within(html@, css@, selector_views(inner@)),
        limit as int,
    );
    let mut out: Vec<Branch> = Vec::new();
    proof {
        assert(branch_views(out@) =~= expected.take(0));
    }
    let (mut elements, mut parts) = match (
        select_elements(html, css, limit),
        select_below(html, css, inner, limit),
    ) {
        (Some(elements), Some(parts)) => (elements, parts),
        _ => {
            return out;
        },
    };
    let ghost all = elements@;
    let ghost below = parts@;
    proof {
        let whole = selected_within(html@, css@, selector_views(inner@));
        assert(element_views(all).len() == all.len());
        assert(all_part_views(below).len() == below.len());
        assert(expected.len() == at_most(all.len() as int, below.len()));
        assert forall|j: int| 0 <= j < expected.len() implies #[trigger] expected[j]
            == (BranchModel { element: all[j]@, parts: part_views(below[j]@) }) by {
            assert(expected[j] == whole[j]);
            assert(element_views(all)[j] == all[j]@);
            assert(all_part_views(below)[j] == part_views(below[j]@));
        }
    }
    let mut i: usize = 0;
    while i < elements.len() && i < parts.len()
        invariant
            i <= elements@.len() == all.len(),
            i <= parts@.len() == below.len(),
            forall|j: int| i <= j < all.len() ==> elements@[j] == #[trigger] all[j],
            forall|j: int| i <= j < below.len() ==> parts@[j] == #[trigger] below[j],
            expected.len() == at_most(all.len() as int, below.len()),
            forall|j: int|
                0 <= j < expected.len() ==> #[trigger] expected[j] == (BranchModel {
                    element: all[j]@,
                    parts: part_views(below[j]@),
                }),
            forall|j: int| 0 <= j < below.len() ==> #[trigger] below[j]@.len() == inner@.len(),
            branch_views(out@) == expected.take(i as int),
            forall|j: int| 0 <= j < out@.len() ==> #[trigger] out@[j].parts@.len() == inner@.len(),
        decreases elements@.len() - i,
    {
        let ghost before = branch_views(out@);
        let mut element = Element { attributes: Vec::new(), text: Vec::new() };
        let mut lists: Vec<Vec<Element>> = Vec::new();
        proof {
            assert(elements@[i as int] == all[i as int]);
            assert(parts@[i as int] == below[i as int]);
        }
        std::mem::swap(&mut element, &mut elements[i]);
        std::mem::swap(&mut lists, &mut parts[i]);
        let branch = Branch { element, parts: lists };
        out.push(branch);
        proof {
            assert(branch@ =~= expected[i as int]);
            assert(branch_views(out@) =~= before.push(expected[i as int]));
            assert(expected.take(i as int + 1) =~= expected.take(i as int).push(expected[i as int]));
        }
        i = i + 1;
    }
    proof {
        assert(expected.take(expected.len() as int) =~= expected);
    }
    out
}

/// Which of the elements that `css` finds `test` matches; no answer where a
/// selector does not parse.
pub open spec fn matched(html: Seq<char>, css: Seq<char>, test: Seq<char>) -> Seq<bool> {
    match dom_matches(html, css, test) {
        Some(answers) => answers,
        None => Seq::empty(),
    }
}

/// For each of the first elements that `css` finds, at most `limit`, whether
/// `test` matches it.
pub fn matches_among(html: &str, css: &str, test: &str, limit: usize) -> (r: Vec<bool>)
    ensures
        r@ == first_of(matched(html@, css@, test@), limit as int),
{
    match match_elements(html, css, test, limit) {
        Some(answers) => answers,
        None => {
            let none: Vec<bool> = Vec::new();
            proof {
                assert(none@ =~= first_of(matched(html@, css@, test@), limit as int));
            }
            none
        },
    }
}

// ------------------------------------------------------------------- elements

/// The value of the first attribute called `name`.
pub open spec fn attribute(attributes: Seq<(Seq<char>, Option<Seq<char>>)>, name: Seq<char>) -> Option<
    Seq<char>,
>
    decreases attributes.len(),
{
    if attributes.len() == 0 {
        None
    } else if attributes[0].0 == name {
        attributes[0].1
    } else {
        attribute(attributes.drop_first(), name)
    }
}

impl ElementModel {
    /// The value of an attribute.
    pub open spec fn attr(self, name: Seq<char>) -> Option<Seq<char>> {
        attribute(self.attributes, name)
    }

    /// The value of an attribute, or `other` where there is none.
    pub open spec fn attr_or(self, name: Seq<char>, other: Seq<char>) -> Seq<char> {
        match self.attr(name) {
            Some(value) => value,
            None => other,
        }
    }

    /// The first text nodes, with a space between neighbours.
    pub open spec fn spaced_text(self) -> Seq<char> {
        text::joined(self.text.take(at_most(16_384, self.text.len())), " "@)
    }

    /// The first few text nodes, put together.
    pub open spec fn brief_text(self) -> Seq<char> {
        text::flat(self.text.take(at_most(8, self.text.len())))
    }
}

impl Element {
    /// The value of an attribute.
    pub fn attr(&self, name: &str) -> (r: Option<&str>)
        ensures
            match r {
                Some(value) => self@.attr(name@) == Some(value@),
                None => self@.attr(name@) is None,
            },
    {
        let ghost all = self@.attributes;
        let mut i: usize = 0;
        proof {
            assert(all.skip(0) =~= all);
        }
        while i < self.attributes.len()
            invariant
                i <= self.attributes@.len(),
                all == self@.attributes,
                attribute(all.skip(i as int), name@) == self@.attr(name@),
            decreases self.attributes@.len() - i,
        {
            proof {
                assert(all.skip(i as int)[0] == all[i as int]);
                assert(all.skip(i as int).drop_first() =~= all.skip(i as int + 1));
            }
            if same_text(self.attributes[i].0.as_str(), name) {
                return match &self.attributes[i].1 {
                    Some(value) => Some(value.as_str()),
                    None => None,
                };
            }
            i = i + 1;
        }
        None
    }

    /// The value of an attribute, or `other` where there is none.
    pub fn attr_or<'a>(&'a self, name: &str, other: &'a str) -> (r: &'a str)
        ensures
            r@ == self@.attr_or(name@, other@),
    {
        match self.attr(name) {
            Some(value) => value,
            None => other,
        }
    }

    /// The first text nodes, with a space between neighbours.
    pub fn spaced_text(&self) -> (r: String)
        ensures
            r@ == self@.spaced_text(),
    {
        join_first(&self.text, 16_384, " ")
    }

    /// The first few text nodes, put together.
    pub fn brief_text(&self) -> (r: String)
        ensures
            r@ == self@.brief_text(),
    {
        concat_first(&self.text, 8)
    }
}

} // verus!
