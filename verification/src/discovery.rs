//! Proxy candidates: reading them off rendered pages, and judging whether a
//! page is a usable search page.

use crate::browser;
use crate::browser::{BrowserError, RenderedDocument};
use crate::dom;
use crate::dom::{matches_among, select_first, select_within, Branch, Element};
use crate::model;
use crate::text;
use crate::text::{
    chars_of, contains, copy_opt, is_listed, is_text, lower_chars, lower_text, same_ignoring_case,
    slice_chars, strip_prefix, trim, CharClass,
};
use crate::weburl;
use crate::weburl::Url;
use vstd::prelude::*;

pub use crate::discovery_run::{
    DiscoveryAction, DiscoveryEngine, DiscoveryError, DiscoveryEvent, DiscoveryOutcome, DiscoveryRun,
    ValidatedCandidate,
};

verus! {

/// The most anchors that are looked at on one page.
pub const HARD_MAX_ANCHORS: usize = 600;

/// The most forms that are looked at on one page.
pub const HARD_MAX_FORMS: usize = 32;

/// The most inputs that are looked at in one form.
pub const HARD_MAX_INPUTS_PER_FORM: usize = 24;

/// The most characters of a page in which markers are looked for.
pub const MAX_MARKER_CHARACTERS: usize = 400_000;

// ---------------------------------------------------------------------- types

/// Where an attempt failed.
#[derive(Debug, Clone, Copy, PartialEq, Eq, Structural)]
pub enum FailureStage {
    DiscoverySource,
    CandidatePreflight,
    CandidateRender,
    CandidateValidation,
}

/// What each stage is called.
pub open spec fn stage_text(stage: FailureStage) -> Seq<char> {
    match stage {
        FailureStage::DiscoverySource => "discovery source"@,
        FailureStage::CandidatePreflight => "candidate preflight"@,
        FailureStage::CandidateRender => "candidate render"@,
        FailureStage::CandidateValidation => "candidate validation"@,
    }
}

impl FailureStage {
    /// The name of the stage.
    pub fn label(&self) -> (r: &'static str)
        ensures
            r@ == stage_text(*self),
    {
        match self {
            FailureStage::DiscoverySource => "discovery source",
            FailureStage::CandidatePreflight => "candidate preflight",
            FailureStage::CandidateRender => "candidate render",
            FailureStage::CandidateValidation => "candidate validation",
        }
    }
}

/// Why an attempt failed.
#[derive(Debug, Clone, Copy, PartialEq, Eq, Structural)]
pub enum FailureReason {
    RejectedNavigation,
    Timeout,
    BrowserFailure,
    Blocked,
    Challenge,
    UnsupportedPage,
    MalformedPage,
}

/// What each reason says.
pub open spec fn reason_text(reason: FailureReason) -> Seq<char> {
    match reason {
        FailureReason::RejectedNavigation => "navigation was rejected"@,
        FailureReason::Timeout => "operation timed out"@,
        FailureReason::BrowserFailure => "browser operation failed"@,
        FailureReason::Blocked => "access was denied"@,
        FailureReason::Challenge => "page presented a challenge or CAPTCHA"@,
        FailureReason::UnsupportedPage => "page had no supported search form"@,
        FailureReason::MalformedPage => "page structure was malformed"@,
    }
}

impl FailureReason {
    /// The reason in words.
    pub fn label(&self) -> (r: &'static str)
        ensures
            r@ == reason_text(*self),
    {
        match self {
            FailureReason::RejectedNavigation => "navigation was rejected",
            FailureReason::Timeout => "operation timed out",
            FailureReason::BrowserFailure => "browser operation failed",
            FailureReason::Blocked => "access was denied",
            FailureReason::Challenge => "page presented a challenge or CAPTCHA",
            FailureReason::UnsupportedPage => "page had no supported search form",
            FailureReason::MalformedPage => "page structure was malformed",
        }
    }
}

/// What an error of the browser means for a candidate.
pub open spec fn reason_of(fault: browser::BrowserFault) -> FailureReason {
    match fault {
        browser::BrowserFault::NavigationRejected(_) => FailureReason::RejectedNavigation,
        browser::BrowserFault::TooManyRedirects(_) => FailureReason::RejectedNavigation,
        browser::BrowserFault::Timeout(_) => FailureReason::Timeout,
        _ => FailureReason::BrowserFailure,
    }
}

/// What an error of the browser means for a candidate.
pub fn reason_from_browser_error(error: &BrowserError) -> (r: FailureReason)
    ensures
        r == reason_of(error@),
{
    match error {
        BrowserError::NavigationRejected(_) => FailureReason::RejectedNavigation,
        BrowserError::TooManyRedirects(_) => FailureReason::RejectedNavigation,
        BrowserError::Timeout { .. } => FailureReason::Timeout,
        _ => FailureReason::BrowserFailure,
    }
}

/// A failed attempt by its values.
#[verifier::ext_equal]
pub struct FailureModel {
    pub stage: FailureStage,
    pub url: Seq<char>,
    pub reason: FailureReason,
}

/// A failed attempt. The address holds neither credentials nor a query or a
/// fragment.
#[derive(Debug, PartialEq, Eq)]
pub struct DiscoveryFailure {
    pub stage: FailureStage,
    pub url: String,
    pub reason: FailureReason,
}

impl View for DiscoveryFailure {
    type V = FailureModel;

    open spec fn view(&self) -> FailureModel {
        FailureModel { stage: self.stage, url: self.url@, reason: self.reason }
    }
}

/// Failures by their values.
pub open spec fn failure_views(failures: Seq<DiscoveryFailure>) -> Seq<FailureModel> {
    Seq::new(failures.len(), |i: int| failures[i]@)
}

/// A failure in words.
pub open spec fn failure_text(failure: FailureModel) -> Seq<char> {
    stage_text(failure.stage) + " "@ + failure.url + ": "@ + reason_text(failure.reason)
}

impl DiscoveryFailure {
    /// The failure in words.
    pub fn message(&self) -> (r: String)
        ensures
            r@ == failure_text(self@),
    {
        let mut out = self.stage.label().to_string();
        out.append(" ");
        out.append(self.url.as_str());
        out.append(": ");
        out.append(self.reason.label());
        out
    }
}

/// The failure of an attempt at `url`.
pub open spec fn failure_at(
    stage: FailureStage,
    url: weburl::UrlModel,
    reason: FailureReason,
) -> FailureModel {
    FailureModel { stage, url: weburl::public_address(url.href), reason }
}

/// The failure of an attempt at `url`.
pub fn failure(stage: FailureStage, url: &Url, reason: FailureReason) -> (r: DiscoveryFailure)
    ensures
        r@ == failure_at(stage, url@, reason),
        weburl::shows_nothing_private(r.url@),
{
    DiscoveryFailure { stage, url: url.public_address(), reason }
}

/// How a form is sent.
#[derive(Debug, Clone, Copy, PartialEq, Eq, Structural)]
pub enum FormMethod {
    Get,
    Post,
}

/// The input of a search form by its values.
#[verifier::ext_equal]
pub struct InputModel {
    pub input_index: nat,
    pub name: Option<Seq<char>>,
    pub id: Option<Seq<char>>,
}

/// The input of a form that takes the query.
#[derive(Debug, PartialEq, Eq)]
pub struct QueryInput {
    pub input_index: usize,
    pub name: Option<String>,
    pub id: Option<String>,
}

impl View for QueryInput {
    type V = InputModel;

    open spec fn view(&self) -> InputModel {
        InputModel {
            input_index: self.input_index as nat,
            name: text::opt_view(self.name),
            id: text::opt_view(self.id),
        }
    }
}

impl Clone for QueryInput {
    fn clone(&self) -> (r: QueryInput)
        ensures
            r@ == self@,
    {
        QueryInput {
            input_index: self.input_index,
            name: copy_opt(&self.name),
            id: copy_opt(&self.id),
        }
    }
}

/// A search form by its values.
#[verifier::ext_equal]
pub struct FormModel {
    pub form_index: nat,
    pub input: InputModel,
    pub action: weburl::UrlModel,
    pub method: FormMethod,
}

/// A search form of a page.
#[derive(Debug, PartialEq, Eq)]
pub struct SearchForm {
    pub form_index: usize,
    pub input: QueryInput,
    pub action: Url,
    pub method: FormMethod,
}

impl View for SearchForm {
    type V = FormModel;

    open spec fn view(&self) -> FormModel {
        FormModel {
            form_index: self.form_index as nat,
            input: self.input@,
            action: self.action@,
            method: self.method,
        }
    }
}

impl Clone for SearchForm {
    fn clone(&self) -> (r: SearchForm)
        ensures
            r@ == self@,
    {
        SearchForm {
            form_index: self.form_index,
            input: self.input.clone(),
            action: self.action.clone(),
            method: self.method,
        }
    }
}

// ----------------------------------------------------------------- candidates

/// An address that may be a proxy: a web address without credentials and
/// without a fragment.
#[derive(Debug, PartialEq, Eq)]
pub struct CandidateUrl(Url);

impl View for CandidateUrl {
    type V = weburl::UrlModel;

    closed spec fn view(&self) -> weburl::UrlModel {
        self.0@
    }
}

/// Candidates by their URLs.
pub open spec fn candidate_views(candidates: Seq<CandidateUrl>) -> Seq<weburl::UrlModel> {
    Seq::new(candidates.len(), |i: int| candidates[i]@)
}

impl Clone for CandidateUrl {
    fn clone(&self) -> (r: CandidateUrl)
        ensures
            r@ == self@,
    {
        proof {
            use_type_invariant(self);
        }
        CandidateUrl(self.0.clone())
    }
}

/// Whether a URL is a candidate as it stands: a web address with a host, without
/// credentials and without a fragment.
pub open spec fn is_candidate(url: weburl::UrlModel) -> bool {
    weburl::is_web(url) && !weburl::has_credentials(url) && url.host_text is Some
        && url.fragment is None
}

impl CandidateUrl {
    #[verifier::type_invariant]
    spec fn bare(self) -> bool {
        is_candidate(self.0@)
    }

    /// The address.
    pub fn as_url(&self) -> (r: &Url)
        ensures
            r@ == self@,
            is_candidate(self@),
    {
        proof {
            use_type_invariant(self);
        }
        &self.0
    }

    /// The address.
    pub fn into_url(self) -> (r: Url)
        ensures
            r@ == self@,
            is_candidate(self@),
    {
        proof {
            use_type_invariant(&self);
        }
        self.0
    }

    /// The address as text.
    pub fn as_str(&self) -> (r: &str)
        ensures
            r@ == self@.href,
    {
        self.0.as_str()
    }
}

/// The candidate that a URL is, if it is one: a web address with a host and
/// without credentials, taken without its fragment.
pub open spec fn normalized(url: weburl::UrlModel) -> Option<weburl::UrlModel> {
    if !weburl::is_web(url) || weburl::has_credentials(url) || url.host_text is None {
        None
    } else {
        match weburl::without_fragment(url) {
            Some(bare) => if is_candidate(bare) {
                Some(bare)
            } else {
                None
            },
            None => None,
        }
    }
}

/// Makes a candidate of a URL.
pub fn normalize_candidate(url: Url) -> (r: Result<CandidateUrl, FailureReason>)
    ensures
        match r {
            Ok(candidate) => normalized(url@) == Some(candidate@) && is_candidate(candidate@),
            Err(reason) => normalized(url@) is None && reason == FailureReason::RejectedNavigation,
        },
{
    if !url.is_web() || url.has_credentials() || url.host_str().is_none() {
        return Err(FailureReason::RejectedNavigation);
    }
    match url.without_fragment() {
        Some(bare) => if bare.is_web() && !bare.has_credentials() && bare.host_str().is_some() {
            Ok(CandidateUrl(bare))
        } else {
            Err(FailureReason::RejectedNavigation)
        },
        None => Err(FailureReason::RejectedNavigation),
    }
}

/// What normalizing gives is a candidate, and normalizing it once more changes
/// nothing.
pub proof fn normalized_again(url: weburl::UrlModel)
    requires
        normalized(url) is Some,
    ensures
        is_candidate(normalized(url)->0),
        normalized(normalized(url)->0) == normalized(url),
{
}

/// Whether any of the needles occurs in `hay`.
pub open spec fn any_occurs(needles: Seq<Seq<char>>, hay: Seq<char>) -> bool {
    exists|i: int| 0 <= i < needles.len() && text::occurs(#[trigger] needles[i], hay)
}

/// Whether any of `needles` occurs in `hay`.
pub fn contains_any(hay: &[char], needles: &[&str]) -> (r: bool)
    ensures
        r == any_occurs(dom::selector_views(needles@), hay@),
{
    let mut i: usize = 0;
    while i < needles.len()
        invariant
            i <= needles@.len(),
            forall|j: int| 0 <= j < i ==> !text::occurs(#[trigger] needles@[j]@, hay@),
        decreases needles@.len() - i,
    {
        if contains(hay, needles[i]) {
            proof {
                assert(text::occurs(dom::selector_views(needles@)[i as int], hay@));
            }
            return true;
        }
        i = i + 1;
    }
    proof {
        assert forall|j: int| 0 <= j < needles@.len() implies !text::occurs(
            #[trigger] dom::selector_views(needles@)[j],
            hay@,
        ) by {
            assert(!text::occurs(needles@[j]@, hay@));
        }
    }
    false
}

/// The words that links to proxies bear.
pub open spec fn proxy_words() -> Seq<Seq<char>> {
    seq!["pirate"@, "tpb"@, "proxy"@, "mirrorbay"@, "hiddenbay"@]
}

/// Whether a link looks as if it led to a proxy.
pub open spec fn looks_like_candidate(words: Seq<char>, href: Seq<char>) -> bool {
    any_occurs(proxy_words(), text::lower(words + " "@ + href))
}

fn link_is_promising(words: &str, href: &str) -> (r: bool)
    ensures
        r == looks_like_candidate(words@, href@),
{
    let mut both = words.to_string();
    both.append(" ");
    both.append(href);
    let lowered = lower_text(both.as_str());
    let needles = ["pirate", "tpb", "proxy", "mirrorbay", "hiddenbay"];
    proof {
        assert(dom::selector_views(needles@) =~= proxy_words());
    }
    contains_any(&lowered, &needles)
}

/// The candidate that an anchor leads to. On a list that is trusted any link
/// counts; elsewhere it must look like one.
pub open spec fn linked(
    anchor: dom::ElementModel,
    page: weburl::UrlModel,
    trusted: bool,
) -> Option<weburl::UrlModel> {
    match anchor.attr("href"@) {
        None => None,
        Some(href) => if !trusted && !looks_like_candidate(anchor.brief_text(), href) {
            None
        } else {
            match weburl::joined(page, href) {
                Some(url) => normalized(url),
                None => None,
            }
        },
    }
}

fn follow(anchor: &Element, page: &Url, trusted: bool) -> (r: Option<CandidateUrl>)
    ensures
        match r {
            Some(candidate) => linked(anchor@, page@, trusted) == Some(candidate@),
            None => linked(anchor@, page@, trusted) is None,
        },
{
    let href = match anchor.attr("href") {
        Some(href) => href,
        None => {
            return None;
        },
    };
    let words = anchor.brief_text();
    if !trusted && !link_is_promising(words.as_str(), href) {
        return None;
    }
    match page.join(href) {
        Some(url) => match normalize_candidate(url) {
            Ok(candidate) => Some(candidate),
            Err(_) => None,
        },
        None => None,
    }
}

/// The sites of several URLs.
pub open spec fn host_keys(urls: Seq<weburl::UrlModel>) -> Seq<Seq<char>> {
    Seq::new(urls.len(), |i: int| weburl::host_key(urls[i]))
}

/// The candidates that anchors lead to, in order: one for each site, none for
/// the page's own site, and at most `limit`.
pub open spec fn harvested(
    anchors: Seq<dom::ElementModel>,
    page: weburl::UrlModel,
    trusted: bool,
    limit: nat,
) -> Seq<weburl::UrlModel>
    decreases anchors.len(),
{
    if anchors.len() == 0 {
        Seq::empty()
    } else {
        let before = harvested(anchors.drop_last(), page, trusted, limit);
        match linked(anchors.last(), page, trusted) {
            Some(url) => if before.len() < limit && weburl::host_key(url) != weburl::host_key(page)
                && !host_keys(before).contains(weburl::host_key(url)) {
                before.push(url)
            } else {
                before
            },
            None => before,
        }
    }
}

/// The first elements, at most `limit`.
pub open spec fn bounded<T>(items: Seq<T>, limit: int) -> Seq<T> {
    dom::first_of(items, limit)
}

/// Cutting a list once more changes nothing.
pub proof fn bounded_again<T>(items: Seq<T>, limit: int)
    requires
        0 <= limit,
    ensures
        bounded(bounded(items, limit), limit) == bounded(items, limit),
{
    assert(bounded(bounded(items, limit), limit) =~= bounded(items, limit));
}

/// The candidates that the first [`HARD_MAX_ANCHORS`] anchors lead to.
pub fn candidates_among(anchors: &Vec<Element>, page: &Url, trusted: bool, limit: usize) -> (r: Vec<
    CandidateUrl,
>)
    ensures
        candidate_views(r@) == harvested(
            bounded(dom::element_views(anchors@), HARD_MAX_ANCHORS as int),
            page@,
            trusted,
            limit as nat,
        ),
{
    let ghost all = bounded(dom::element_views(anchors@), HARD_MAX_ANCHORS as int);
    let end = if HARD_MAX_ANCHORS < anchors.len() {
        HARD_MAX_ANCHORS
    } else {
        anchors.len()
    };
    let own = page.host_key();
    let mut out: Vec<CandidateUrl> = Vec::new();
    let mut keys: Vec<String> = Vec::new();
    let mut i: usize = 0;
    proof {
        assert(all.take(0) =~= Seq::empty());
        assert(candidate_views(out@) =~= Seq::empty());
        assert(text::views(keys@) =~= host_keys(candidate_views(out@)));
    }
    while i < end
        invariant
            i <= end <= anchors@.len(),
            end <= HARD_MAX_ANCHORS,
            all == bounded(dom::element_views(anchors@), HARD_MAX_ANCHORS as int),
            all.len() == end,
            own@ == weburl::host_key(page@),
            candidate_views(out@) == harvested(all.take(i as int), page@, trusted, limit as nat),
            text::views(keys@) == host_keys(candidate_views(out@)),
        decreases end - i,
    {
        proof {
            assert(all.take(i as int + 1).drop_last() =~= all.take(i as int));
            assert(all.take(i as int + 1).last() == anchors@[i as int]@);
        }
        if let Some(candidate) = follow(&anchors[i], page, trusted) {
            let key = candidate.as_url().host_key();
            if out.len() < limit && !text::same_text(key.as_str(), own.as_str()) && !is_listed(
                &keys,
                key.as_str(),
            ) {
                let ghost before = candidate_views(out@);
                let ghost known = text::views(keys@);
                out.push(candidate);
                keys.push(key);
                proof {
                    assert(candidate_views(out@) =~= before.push(candidate@));
                    assert(text::views(keys@) =~= known.push(key@));
                    assert(host_keys(before.push(candidate@)) =~= host_keys(before).push(key@));
                }
            }
        }
        i = i + 1;
    }
    proof {
        assert(all.take(all.len() as int) =~= all);
    }
    out
}

/// What a page of lists is read with: selectors in order of preference, and
/// whether each finds entries of a trusted list.
pub open spec fn list_selectors(host: Seq<char>) -> Seq<(Seq<char>, bool)> {
    if text::lower(host) == text::lower("piratebayproxy.info"@) {
        seq![("table tr td:first-child a[href]"@, true), ("table a[href]"@, true)]
    } else if text::lower(host) == text::lower("techpp.com"@) {
        seq![("article a[href]"@, false), ("main a[href]"@, false)]
    } else {
        Seq::empty()
    }
}

/// What a selector leads to on a page.
pub open spec fn harvested_with(
    document: browser::DocumentModel,
    css: Seq<char>,
    trusted: bool,
    limit: nat,
) -> Seq<weburl::UrlModel> {
    harvested(
        bounded(dom::selected(document.html, css), HARD_MAX_ANCHORS as int),
        document.url,
        trusted,
        limit,
    )
}

/// What the first selector that leads anywhere leads to, or else any link that
/// looks like a proxy.
pub open spec fn first_harvest(
    document: browser::DocumentModel,
    selectors: Seq<(Seq<char>, bool)>,
    limit: nat,
) -> Seq<weburl::UrlModel>
    decreases selectors.len(),
{
    if selectors.len() == 0 {
        harvested_with(document, "a[href]"@, false, limit)
    } else {
        let found = harvested_with(document, selectors[0].0, selectors[0].1, limit);
        if found.len() > 0 {
            found
        } else {
            first_harvest(document, selectors.drop_first(), limit)
        }
    }
}

/// The host of a URL, empty where it has none.
pub open spec fn host_or_empty(url: weburl::UrlModel) -> Seq<char> {
    match url.host_text {
        Some(host) => host,
        None => Seq::empty(),
    }
}

/// The candidates that a rendered page lists, at most `limit`.
pub open spec fn extracted(document: browser::DocumentModel, limit: nat) -> Seq<weburl::UrlModel> {
    if limit == 0 {
        Seq::empty()
    } else {
        first_harvest(document, list_selectors(host_or_empty(document.url)), limit)
    }
}

fn extract_with_selector(document: &RenderedDocument, css: &str, trusted: bool, limit: usize) -> (r:
    Vec<CandidateUrl>)
    ensures
        candidate_views(r@) == harvested_with(document@, css@, trusted, limit as nat),
{
    let anchors = select_first(document.html.as_str(), css, HARD_MAX_ANCHORS);
    proof {
        bounded_again(dom::selected(document@.html, css@), HARD_MAX_ANCHORS as int);
    }
    candidates_among(&anchors, &document.url, trusted, limit)
}

/// The candidates that a rendered page lists, at most `limit`.
pub fn extract_candidates(document: &RenderedDocument, limit: usize) -> (r: Vec<CandidateUrl>)
    ensures
        candidate_views(r@) == extracted(document@, limit as nat),
        all_candidates(candidate_views(r@)),
{
    proof {
        extraction_is_bounded(document@, limit as nat);
    }
    if limit == 0 {
        let none: Vec<CandidateUrl> = Vec::new();
        proof {
            assert(candidate_views(none@) =~= Seq::empty());
        }
        return none;
    }
    let host = match document.url.host_str() {
        Some(host) => host,
        None => "",
    };
    proof {
        reveal_strlit("");
        assert(host@ =~= host_or_empty(document@.url));
        reveal_with_fuel(first_harvest, 3);
    }
    let ghost all = list_selectors(host@);
    if same_ignoring_case(host, "piratebayproxy.info") {
        proof {
            assert(all.drop_first() =~= seq![("table a[href]"@, true)]);
            assert(all.drop_first().drop_first() =~= Seq::empty());
        }
        let first = extract_with_selector(document, "table tr td:first-child a[href]", true, limit);
        if first.len() > 0 {
            return first;
        }
        let second = extract_with_selector(document, "table a[href]", true, limit);
        if second.len() > 0 {
            return second;
        }
    } else if same_ignoring_case(host, "techpp.com") {
        proof {
            assert(all.drop_first() =~= seq![("main a[href]"@, false)]);
            assert(all.drop_first().drop_first() =~= Seq::empty());
        }
        let first = extract_with_selector(document, "article a[href]", false, limit);
        if first.len() > 0 {
            return first;
        }
        let second = extract_with_selector(document, "main a[href]", false, limit);
        if second.len() > 0 {
            return second;
        }
    }
    extract_with_selector(document, "a[href]", false, limit)
}

/// No two entries are the same.
pub open spec fn all_distinct(keys: Seq<Seq<char>>) -> bool {
    forall|i: int, j: int| 0 <= i < j < keys.len() ==> #[trigger] keys[i] != #[trigger] keys[j]
}

/// Every entry is a candidate as it stands.
pub open spec fn all_candidates(urls: Seq<weburl::UrlModel>) -> bool {
    forall|i: int| 0 <= i < urls.len() ==> is_candidate(#[trigger] urls[i])
}

proof fn harvest_is_bounded(
    anchors: Seq<dom::ElementModel>,
    page: weburl::UrlModel,
    trusted: bool,
    limit: nat,
)
    ensures
        harvested(anchors, page, trusted, limit).len() <= limit,
        all_distinct(host_keys(harvested(anchors, page, trusted, limit))),
        !host_keys(harvested(anchors, page, trusted, limit)).contains(weburl::host_key(page)),
        all_candidates(harvested(anchors, page, trusted, limit)),
    decreases anchors.len(),
{
    if anchors.len() > 0 {
        let before = harvested(anchors.drop_last(), page, trusted, limit);
        harvest_is_bounded(anchors.drop_last(), page, trusted, limit);
        let after = harvested(anchors, page, trusted, limit);
        if after != before {
            let keys = host_keys(after);
            let known = host_keys(before);
            assert(keys =~= known.push(keys.last()));
            assert forall|i: int, j: int| 0 <= i < j < keys.len() implies #[trigger] keys[i]
                != #[trigger] keys[j] by {
                if j == known.len() {
                    assert(known[i] == keys[i]);
                } else {
                    assert(known[i] == keys[i] && known[j] == keys[j]);
                }
            }
            if keys.contains(weburl::host_key(page)) {
                let k = choose|k: int| 0 <= k < keys.len() && keys[k] == weburl::host_key(page);
                if k < known.len() {
                    assert(known[k] == weburl::host_key(page));
                }
                assert(false);
            }
        }
    }
}

/// However many links a page holds, at most `limit` candidates are taken from
/// it, each of another site, and none of the page's own. Each is a web address
/// without credentials and without a fragment.
pub proof fn extraction_is_bounded(document: browser::DocumentModel, limit: nat)
    ensures
        extracted(document, limit).len() <= limit,
        all_distinct(host_keys(extracted(document, limit))),
        !host_keys(extracted(document, limit)).contains(weburl::host_key(document.url)),
        all_candidates(extracted(document, limit)),
{
    if limit > 0 {
        first_harvest_is_bounded(document, list_selectors(host_or_empty(document.url)), limit);
    }
}

proof fn harvest_is_cut(
    anchors: Seq<dom::ElementModel>,
    page: weburl::UrlModel,
    trusted: bool,
    less: nat,
    more: nat,
)
    requires
        less <= more,
    ensures
        harvested(anchors, page, trusted, less) == bounded(
            harvested(anchors, page, trusted, more),
            less as int,
        ),
    decreases anchors.len(),
{
    let long = harvested(anchors, page, trusted, more);
    if anchors.len() > 0 {
        harvest_is_cut(anchors.drop_last(), page, trusted, less, more);
        let before = harvested(anchors.drop_last(), page, trusted, more);
        if before.len() < less {
            assert(bounded(before, less as int) =~= before);
            assert(bounded(long, less as int) =~= long);
        } else {
            assert(bounded(long, less as int) =~= bounded(before, less as int));
        }
    }
    assert(harvested(anchors, page, trusted, less) =~= bounded(long, less as int));
}

proof fn first_harvest_is_cut(
    document: browser::DocumentModel,
    selectors: Seq<(Seq<char>, bool)>,
    less: nat,
    more: nat,
)
    requires
        0 < less <= more,
    ensures
        first_harvest(document, selectors, less) == bounded(
            first_harvest(document, selectors, more),
            less as int,
        ),
    decreases selectors.len(),
{
    if selectors.len() == 0 {
        let anchors = bounded(dom::selected(document.html, "a[href]"@), HARD_MAX_ANCHORS as int);
        harvest_is_cut(anchors, document.url, false, less, more);
    } else {
        let anchors = bounded(dom::selected(document.html, selectors[0].0), HARD_MAX_ANCHORS as int);
        harvest_is_cut(anchors, document.url, selectors[0].1, less, more);
        first_harvest_is_cut(document, selectors.drop_first(), less, more);
    }
}

/// A smaller limit only cuts the list: what is taken from a page with it is the
/// beginning of what is taken with a larger one.
pub proof fn smaller_limits_only_cut(document: browser::DocumentModel, less: nat, more: nat)
    requires
        less <= more,
    ensures
        extracted(document, less) == bounded(extracted(document, more), less as int),
{
    if less > 0 {
        first_harvest_is_cut(
            document,
            list_selectors(host_or_empty(document.url)),
            less,
            more,
        );
    } else {
        assert(bounded(extracted(document, more), 0) =~= Seq::empty());
    }
}

proof fn first_harvest_is_bounded(
    document: browser::DocumentModel,
    selectors: Seq<(Seq<char>, bool)>,
    limit: nat,
)
    ensures
        first_harvest(document, selectors, limit).len() <= limit,
        all_distinct(host_keys(first_harvest(document, selectors, limit))),
        !host_keys(first_harvest(document, selectors, limit)).contains(
            weburl::host_key(document.url),
        ),
        all_candidates(first_harvest(document, selectors, limit)),
    decreases selectors.len(),
{
    if selectors.len() == 0 {
        harvest_is_bounded(
            bounded(dom::selected(document.html, "a[href]"@), HARD_MAX_ANCHORS as int),
            document.url,
            false,
            limit,
        );
    } else {
        harvest_is_bounded(
            bounded(dom::selected(document.html, selectors[0].0), HARD_MAX_ANCHORS as int),
            document.url,
            selectors[0].1,
            limit,
        );
        first_harvest_is_bounded(document, selectors.drop_first(), limit);
    }
}

// ------------------------------------------------------------- search pages

/// The marks of a page that wants proof of a human visitor.
pub open spec fn challenge_marks() -> Seq<Seq<char>> {
    seq![
        "cf-chl-"@,
        "g-recaptcha"@,
        "hcaptcha"@,
        "verify you are human"@,
        "checking your browser"@,
        "attention required! | cloudflare"@,
        "id=\"captcha"@,
        "class=\"captcha"@,
    ]
}

/// The marks of a page that denies access.
pub open spec fn denial_marks() -> Seq<Seq<char>> {
    seq![
        "<title>access denied"@,
        ">access denied<"@,
        "request blocked"@,
        "you don't have permission to access"@,
        "you do not have permission to access"@,
    ]
}

/// The words that the navigation of a torrent index bears.
pub open spec fn navigation_words() -> Seq<Seq<char>> {
    seq!["browse"@, "recent"@, "top 100"@, "top/"@, "category"@, "torrent"@]
}

fn is_challenge_page(lowered: &[char]) -> (r: bool)
    ensures
        r == any_occurs(challenge_marks(), lowered@),
{
    let marks = [
        "cf-chl-",
        "g-recaptcha",
        "hcaptcha",
        "verify you are human",
        "checking your browser",
        "attention required! | cloudflare",
        "id=\"captcha",
        "class=\"captcha",
    ];
    proof {
        assert(dom::selector_views(marks@) =~= challenge_marks());
    }
    contains_any(lowered, &marks)
}

fn is_access_denied_page(lowered: &[char]) -> (r: bool)
    ensures
        r == any_occurs(denial_marks(), lowered@),
{
    let marks = [
        "<title>access denied",
        ">access denied<",
        "request blocked",
        "you don't have permission to access",
        "you do not have permission to access",
    ];
    proof {
        assert(dom::selector_views(marks@) =~= denial_marks());
    }
    contains_any(lowered, &marks)
}

/// Whether an anchor is a magnet link.
pub open spec fn is_magnet_anchor(anchor: dom::ElementModel) -> bool {
    text::after_prefix(text::lower(anchor.attr_or("href"@, Seq::empty())), "magnet:"@) is Some
}

/// Whether an anchor belongs to the navigation of a torrent index.
pub open spec fn is_index_anchor(anchor: dom::ElementModel) -> bool {
    any_occurs(
        navigation_words(),
        text::lower(anchor.attr_or("href"@, Seq::empty()) + " "@ + anchor.brief_text()),
    )
}

/// Whether anchors and the lowered page show a torrent index: a magnet link, or
/// the word and a link of its navigation.
pub open spec fn torrent_context(anchors: Seq<dom::ElementModel>, lowered: Seq<char>) -> bool {
    ||| exists|i: int| 0 <= i < anchors.len() && is_magnet_anchor(#[trigger] anchors[i])
    ||| text::occurs("torrent"@, lowered) && exists|i: int|
        0 <= i < anchors.len() && is_index_anchor(#[trigger] anchors[i])
}

fn anchor_is_magnet(anchor: &Element) -> (r: bool)
    ensures
        r == is_magnet_anchor(anchor@),
{
    let href = lower_text(anchor.attr_or("href", ""));
    proof {
        reveal_strlit("");
        assert(""@ =~= Seq::empty());
    }
    strip_prefix(&href, "magnet:").is_some()
}

fn anchor_is_index(anchor: &Element) -> (r: bool)
    ensures
        r == is_index_anchor(anchor@),
{
    proof {
        reveal_strlit("");
        assert(""@ =~= Seq::empty());
    }
    let mut both = anchor.attr_or("href", "").to_string();
    both.append(" ");
    let words = anchor.brief_text();
    both.append(words.as_str());
    let lowered = lower_text(both.as_str());
    let needles = ["browse", "recent", "top 100", "top/", "category", "torrent"];
    proof {
        assert(dom::selector_views(needles@) =~= navigation_words());
    }
    contains_any(&lowered, &needles)
}

/// Whether the first [`HARD_MAX_ANCHORS`] anchors and the lowered page show a
/// torrent index.
pub fn has_torrent_context(anchors: &Vec<Element>, lowered: &[char]) -> (r: bool)
    ensures
        r == torrent_context(
            bounded(dom::element_views(anchors@), HARD_MAX_ANCHORS as int),
            lowered@,
        ),
{
    let ghost all = bounded(dom::element_views(anchors@), HARD_MAX_ANCHORS as int);
    let end = if HARD_MAX_ANCHORS < anchors.len() {
        HARD_MAX_ANCHORS
    } else {
        anchors.len()
    };
    let mut supporting = false;
    let mut i: usize = 0;
    while i < end
        invariant
            i <= end <= anchors@.len(),
            end <= HARD_MAX_ANCHORS,
            all == bounded(dom::element_views(anchors@), HARD_MAX_ANCHORS as int),
            all.len() == end,
            forall|j: int| 0 <= j < i ==> !is_magnet_anchor(#[trigger] all[j]),
            supporting == exists|j: int| 0 <= j < i && is_index_anchor(#[trigger] all[j]),
        decreases end - i,
    {
        proof {
            assert(all[i as int] == anchors@[i as int]@);
        }
        if anchor_is_magnet(&anchors[i]) {
            return true;
        }
        if anchor_is_index(&anchors[i]) {
            supporting = true;
        }
        i = i + 1;
    }
    supporting && contains(lowered, "torrent")
}

/// The types of input that take no text from the user.
pub open spec fn is_other_input(kind: Seq<char>) -> bool {
    ||| kind == "hidden"@
    ||| kind == "password"@
    ||| kind == "submit"@
    ||| kind == "button"@
    ||| kind == "file"@
    ||| kind == "checkbox"@
    ||| kind == "radio"@
}

/// How much an input looks like the one for the query.
pub open spec fn input_score(input: dom::ElementModel) -> nat {
    let kind = text::lower(input.attr_or("type"@, "text"@));
    let name = text::lower(input.attr_or("name"@, Seq::empty()));
    let id = text::lower(input.attr_or("id"@, Seq::empty()));
    let placeholder = text::lower(input.attr_or("placeholder"@, Seq::empty()));
    if is_other_input(kind) {
        0
    } else {
        (if name == text::lower("q"@) || name == text::lower("search"@) {
            5nat
        } else {
            0
        }) + (if kind == "search"@ {
            4nat
        } else {
            0
        }) + (if text::occurs("search"@, id) || text::occurs("search"@, placeholder) {
            2nat
        } else {
            0
        })
    }
}

fn score_input(input: &Element) -> (r: u8)
    ensures
        r == input_score(input@),
        r <= 11,
{
    proof {
        reveal_strlit("");
        assert(""@ =~= Seq::empty());
    }
    let kind = lower_text(input.attr_or("type", "text"));
    if is_text(&kind, "hidden") || is_text(&kind, "password") || is_text(&kind, "submit")
        || is_text(&kind, "button") || is_text(&kind, "file") || is_text(&kind, "checkbox")
        || is_text(&kind, "radio") {
        return 0;
    }
    let name = input.attr_or("name", "");
    let id = lower_text(input.attr_or("id", ""));
    let placeholder = lower_text(input.attr_or("placeholder", ""));
    let mut score: u8 = 0;
    if same_ignoring_case(name, "q") || same_ignoring_case(name, "search") {
        score = score + 5;
    }
    if is_text(&kind, "search") {
        score = score + 4;
    }
    if contains(&id, "search") || contains(&placeholder, "search") {
        score = score + 2;
    }
    score
}

/// The best score of several inputs, zero where there is none.
pub open spec fn best_score(inputs: Seq<dom::ElementModel>) -> nat
    decreases inputs.len(),
{
    if inputs.len() == 0 {
        0
    } else if input_score(inputs.last()) > best_score(inputs.drop_last()) {
        input_score(inputs.last())
    } else {
        best_score(inputs.drop_last())
    }
}

/// The first input with the best score, where that is not zero.
pub open spec fn best_input(inputs: Seq<dom::ElementModel>) -> Option<int>
    decreases inputs.len(),
{
    if inputs.len() == 0 {
        None
    } else if input_score(inputs.last()) > best_score(inputs.drop_last()) {
        Some(inputs.len() - 1)
    } else {
        best_input(inputs.drop_last())
    }
}

/// How a form is sent, where that is a way that is known.
pub open spec fn form_method(form: dom::ElementModel) -> Option<FormMethod> {
    let method = text::lower(form.attr_or("method"@, "get"@));
    if method == "get"@ {
        Some(FormMethod::Get)
    } else if method == "post"@ {
        Some(FormMethod::Post)
    } else {
        None
    }
}

/// Where a form is sent to, where that is the page's own site.
pub open spec fn form_action(form: dom::ElementModel, page: weburl::UrlModel) -> Option<
    weburl::UrlModel,
> {
    match weburl::joined(page, form.attr_or("action"@, Seq::empty())) {
        Some(action) => if weburl::is_web(action) && !weburl::has_credentials(action)
            && weburl::host_key(action) == weburl::host_key(page) {
            Some(action)
        } else {
            None
        },
        None => None,
    }
}

/// The search form that a form is, if it is one: sent by a known method to the
/// page's own site, with an input that scores at least 2 on a form of a known
/// shape and at least 4 on any other.
pub open spec fn search_form(
    form: dom::ElementModel,
    all_inputs: Seq<dom::ElementModel>,
    index: nat,
    page: weburl::UrlModel,
    known_shape: bool,
) -> Option<FormModel> {
    let inputs = bounded(all_inputs, HARD_MAX_INPUTS_PER_FORM as int);
    match (form_method(form), form_action(form, page), best_input(inputs)) {
        (Some(method), Some(action), Some(at)) => if best_score(inputs) < (if known_shape {
            2nat
        } else {
            4nat
        }) {
            None
        } else {
            Some(
                FormModel {
                    form_index: index,
                    input: InputModel {
                        input_index: at as nat,
                        name: inputs[at].attr("name"@),
                        id: inputs[at].attr("id"@),
                    },
                    action,
                    method,
                },
            )
        },
        _ => None,
    }
}

fn owned(value: Option<&str>) -> (r: Option<String>)
    ensures
        match (r, value) {
            (Some(text), Some(given)) => text@ == given@,
            (None, None) => true,
            _ => false,
        },
{
    match value {
        Some(value) => Some(value.to_string()),
        None => None,
    }
}

/// Reads a search form off a form and the inputs in it.
pub fn parse_search_form(
    form: &Element,
    inputs: &Vec<Element>,
    form_index: usize,
    page_url: &Url,
    known_shape: bool,
) -> (r: Option<SearchForm>)
    ensures
        match r {
            Some(found) => search_form(
                form@,
                dom::element_views(inputs@),
                form_index as nat,
                page_url@,
                known_shape,
            ) == Some(found@),
            None => search_form(
                form@,
                dom::element_views(inputs@),
                form_index as nat,
                page_url@,
                known_shape,
            ) is None,
        },
{
    proof {
        reveal_strlit("");
        assert(""@ =~= Seq::empty());
    }
    let method_text = lower_text(form.attr_or("method", "get"));
    let method = if is_text(&method_text, "get") {
        FormMethod::Get
    } else if is_text(&method_text, "post") {
        FormMethod::Post
    } else {
        return None;
    };
    let action = match page_url.join(form.attr_or("action", "")) {
        Some(action) => action,
        None => {
            return None;
        },
    };
    if !action.is_web() || action.has_credentials() {
        return None;
    }
    let own = page_url.host_key();
    let target = action.host_key();
    if !text::same_text(target.as_str(), own.as_str()) {
        return None;
    }
    let ghost all = bounded(dom::element_views(inputs@), HARD_MAX_INPUTS_PER_FORM as int);
    let end = if HARD_MAX_INPUTS_PER_FORM < inputs.len() {
        HARD_MAX_INPUTS_PER_FORM
    } else {
        inputs.len()
    };
    let mut best: Option<usize> = None;
    let mut best_value: u8 = 0;
    let mut i: usize = 0;
    proof {
        assert(all.take(0) =~= Seq::empty());
    }
    while i < end
        invariant
            i <= end <= inputs@.len(),
            end <= HARD_MAX_INPUTS_PER_FORM,
            all == bounded(dom::element_views(inputs@), HARD_MAX_INPUTS_PER_FORM as int),
            all.len() == end,
            best_value == best_score(all.take(i as int)),
            match best {
                Some(at) => best_input(all.take(i as int)) == Some(at as int) && at < i,
                None => best_input(all.take(i as int)) is None,
            },
        decreases end - i,
    {
        proof {
            assert(all.take(i as int + 1).drop_last() =~= all.take(i as int));
            assert(all.take(i as int + 1).last() == inputs@[i as int]@);
        }
        let score = score_input(&inputs[i]);
        if score > best_value {
            best = Some(i);
            best_value = score;
        }
        i = i + 1;
    }
    proof {
        assert(all.take(all.len() as int) =~= all);
    }
    let at = match best {
        Some(at) => at,
        None => {
            return None;
        },
    };
    if best_value < (if known_shape {
        2
    } else {
        4
    }) {
        return None;
    }
    let input = &inputs[at];
    proof {
        assert(all[at as int] == inputs@[at as int]@);
    }
    Some(
        SearchForm {
            form_index,
            input: QueryInput {
                input_index: at,
                name: owned(input.attr("name")),
                id: owned(input.attr("id")),
            },
            action,
            method,
        },
    )
}

/// The first search form among the forms from `from` on. Where marks are given,
/// only marked forms count, and they are of a known shape.
pub open spec fn form_among(
    forms: Seq<dom::BranchModel>,
    marks: Option<Seq<bool>>,
    page: weburl::UrlModel,
    from: int,
) -> Option<FormModel>
    decreases forms.len() - from,
{
    if from < 0 || from >= forms.len() {
        None
    } else {
        let counts = match marks {
            Some(marks) => from < marks.len() && marks[from],
            None => true,
        };
        let here = search_form(
            forms[from].element,
            forms[from].parts[0],
            from as nat,
            page,
            marks is Some,
        );
        if counts && here is Some {
            here
        } else {
            form_among(forms, marks, page, from + 1)
        }
    }
}

/// The search form of a page: the first of a known shape, by the selectors in
/// order, or else the first of any.
pub open spec fn form_of(
    forms: Seq<dom::BranchModel>,
    known: Seq<Seq<bool>>,
    page: weburl::UrlModel,
) -> Option<FormModel>
    decreases known.len(),
{
    if known.len() == 0 {
        form_among(forms, None, page, 0)
    } else {
        match form_among(forms, Some(known[0]), page, 0) {
            Some(form) => Some(form),
            None => form_of(forms, known.drop_first(), page),
        }
    }
}

fn find_form(forms: &Vec<Branch>, marks: Option<&Vec<bool>>, page_url: &Url) -> (r: Option<
    SearchForm,
>)
    requires
        forall|i: int| 0 <= i < forms@.len() ==> #[trigger] forms@[i].parts@.len() == 1,
    ensures
        ({
            let expected = form_among(
                bounded(dom::branch_views(forms@), HARD_MAX_FORMS as int),
                match marks {
                    Some(marks) => Some(marks@),
                    None => None,
                },
                page_url@,
                0,
            );
            match r {
                Some(form) => expected == Some(form@),
                None => expected is None,
            }
        }),
{
    let ghost all = bounded(dom::branch_views(forms@), HARD_MAX_FORMS as int);
    let ghost wanted: Option<Seq<bool>> = match marks {
        Some(marks) => Some(marks@),
        None => None,
    };
    let end = if HARD_MAX_FORMS < forms.len() {
        HARD_MAX_FORMS
    } else {
        forms.len()
    };
    let mut i: usize = 0;
    while i < end
        invariant
            i <= end <= forms@.len(),
            end <= HARD_MAX_FORMS,
            all == bounded(dom::branch_views(forms@), HARD_MAX_FORMS as int),
            all.len() == end,
            wanted == (match marks {
                Some(marks) => Some(marks@),
                None => None,
            }),
            forall|k: int| 0 <= k < forms@.len() ==> #[trigger] forms@[k].parts@.len() == 1,
            form_among(all, wanted, page_url@, i as int) == form_among(all, wanted, page_url@, 0),
        decreases end - i,
    {
        proof {
            assert(all[i as int] == forms@[i as int]@);
            assert(forms@[i as int].parts@.len() == 1);
            assert(all[i as int].parts[0] == dom::element_views(forms@[i as int].parts@[0]@));
        }
        let counts = match marks {
            Some(marks) => i < marks.len() && marks[i],
            None => true,
        };
        if counts {
            let found = parse_search_form(
                &forms[i].element,
                &forms[i].parts[0],
                i,
                page_url,
                marks.is_some(),
            );
            if found.is_some() {
                return found;
            }
        }
        i = i + 1;
    }
    None
}

/// The search form among the first [`HARD_MAX_FORMS`] forms of a page, given for
/// each known shape which forms have it.
pub fn choose_form(forms: &Vec<Branch>, known: &Vec<Vec<bool>>, page_url: &Url) -> (r: Option<
    SearchForm,
>)
    requires
        forall|i: int| 0 <= i < forms@.len() ==> #[trigger] forms@[i].parts@.len() == 1,
    ensures
        ({
            let expected = form_of(
                bounded(dom::branch_views(forms@), HARD_MAX_FORMS as int),
                mark_views(known@),
                page_url@,
            );
            match r {
                Some(form) => expected == Some(form@),
                None => expected is None,
            }
        }),
{
    let ghost all = mark_views(known@);
    let ghost branches = bounded(dom::branch_views(forms@), HARD_MAX_FORMS as int);
    let mut i: usize = 0;
    proof {
        assert(all.skip(0) =~= all);
    }
    while i < known.len()
        invariant
            i <= known@.len(),
            all == mark_views(known@),
            branches == bounded(dom::branch_views(forms@), HARD_MAX_FORMS as int),
            forall|k: int| 0 <= k < forms@.len() ==> #[trigger] forms@[k].parts@.len() == 1,
            form_of(branches, all.skip(i as int), page_url@) == form_of(branches, all, page_url@),
        decreases known@.len() - i,
    {
        proof {
            assert(all.skip(i as int)[0] == known@[i as int]@);
            assert(all.skip(i as int).drop_first() =~= all.skip(i as int + 1));
        }
        let found = find_form(forms, Some(&known[i]), page_url);
        if found.is_some() {
            return found;
        }
        i = i + 1;
    }
    proof {
        assert(all.skip(all.len() as int) =~= Seq::empty());
    }
    find_form(forms, None, page_url)
}

/// Lists of marks by their values.
pub open spec fn mark_views(known: Seq<Vec<bool>>) -> Seq<Seq<bool>> {
    Seq::new(known.len(), |i: int| known[i]@)
}

/// The front of a page in which marks are looked for, in lower case.
pub open spec fn marked_text(html: Seq<char>) -> Seq<char> {
    text::lower(model::first_chars(html, MAX_MARKER_CHARACTERS as nat))
}

/// The front of a page in which marks are looked for, in lower case.
pub fn lowered_front(html: &str) -> (r: Vec<char>)
    ensures
        r@ == marked_text(html@),
{
    let chars = chars_of(html);
    if MAX_MARKER_CHARACTERS < chars.len() {
        let front = slice_chars(&chars, 0, MAX_MARKER_CHARACTERS);
        proof {
            assert(front@ =~= chars@.take(MAX_MARKER_CHARACTERS as int));
        }
        lower_chars(&front)
    } else {
        lower_chars(&chars)
    }
}

/// What is settled of a page by its text alone.
pub open spec fn text_verdict(html: Seq<char>) -> Option<FailureReason> {
    if text::trimmed(html, CharClass::White).len() == 0 {
        Some(FailureReason::MalformedPage)
    } else if any_occurs(challenge_marks(), marked_text(html)) {
        Some(FailureReason::Challenge)
    } else if any_occurs(denial_marks(), marked_text(html)) {
        Some(FailureReason::Blocked)
    } else {
        None
    }
}

/// What a page is, given its anchors, its forms and which forms have a known
/// shape.
pub open spec fn page_verdict(
    document: browser::DocumentModel,
    anchors: Seq<dom::ElementModel>,
    forms: Seq<dom::BranchModel>,
    known: Seq<Seq<bool>>,
) -> Result<FormModel, FailureReason> {
    match text_verdict(document.html) {
        Some(reason) => Err(reason),
        None => if !torrent_context(
            bounded(anchors, HARD_MAX_ANCHORS as int),
            marked_text(document.html),
        ) {
            Err(FailureReason::UnsupportedPage)
        } else {
            match form_of(bounded(forms, HARD_MAX_FORMS as int), known, document.url) {
                Some(form) => Ok(form),
                None => Err(FailureReason::UnsupportedPage),
            }
        },
    }
}

/// The selectors of the known shapes, most wanted first.
pub open spec fn known_shapes() -> Seq<Seq<char>> {
    seq![
        "form#searchform"@,
        "form[action*='search']"@,
        "form[action*='/s/']"@,
        "form.search"@,
    ]
}

/// Which of the first forms of a page have each known shape.
pub open spec fn known_marks(html: Seq<char>) -> Seq<Seq<bool>> {
    Seq::new(
        known_shapes().len(),
        |i: int|
            bounded(dom::matched(html, "form"@, known_shapes()[i]), HARD_MAX_FORMS as int),
    )
}

/// What a rendered page is.
pub open spec fn page_outcome(document: browser::DocumentModel) -> Result<
    FormModel,
    FailureReason,
> {
    page_verdict(
        document,
        bounded(dom::selected(document.html, "a[href]"@), HARD_MAX_ANCHORS as int),
        bounded(
            dom::selected_within(document.html, "form"@, seq!["input"@]),
            HARD_MAX_FORMS as int,
        ),
        known_marks(document.html),
    )
}

/// Whether a result is the expected one.
pub open spec fn form_result_is(
    r: Result<SearchForm, FailureReason>,
    expected: Result<FormModel, FailureReason>,
) -> bool {
    match (r, expected) {
        (Ok(form), Ok(model)) => form@ == model,
        (Err(reason), Err(other)) => reason == other,
        _ => false,
    }
}

/// Judges a page by what was found on it: its anchors, its forms with their
/// inputs, and which forms have each known shape.
pub fn judge_page(
    document: &RenderedDocument,
    anchors: &Vec<Element>,
    forms: &Vec<Branch>,
    known: &Vec<Vec<bool>>,
) -> (r: Result<SearchForm, FailureReason>)
    requires
        forall|i: int| 0 <= i < forms@.len() ==> #[trigger] forms@[i].parts@.len() == 1,
    ensures
        form_result_is(
            r,
            page_verdict(
                document@,
                dom::element_views(anchors@),
                dom::branch_views(forms@),
                mark_views(known@),
            ),
        ),
{
    let html = chars_of(document.html.as_str());
    let solid = trim(&html, CharClass::White);
    if solid.len() == 0 {
        return Err(FailureReason::MalformedPage);
    }
    let lowered = lowered_front(document.html.as_str());
    if is_challenge_page(&lowered) {
        return Err(FailureReason::Challenge);
    }
    if is_access_denied_page(&lowered) {
        return Err(FailureReason::Blocked);
    }
    if !has_torrent_context(anchors, &lowered) {
        return Err(FailureReason::UnsupportedPage);
    }
    match choose_form(forms, known, &document.url) {
        Some(form) => Ok(form),
        None => Err(FailureReason::UnsupportedPage),
    }
}

/// Whether a rendered page is a usable search page, and with which form.
pub fn validate_candidate_page(document: &RenderedDocument) -> (r: Result<SearchForm, FailureReason>)
    ensures
        form_result_is(r, page_outcome(document@)),
{
    let html = document.html.as_str();
    let anchors = select_first(html, "a[href]", HARD_MAX_ANCHORS);
    let inner = ["input"];
    let forms = select_within(html, "form", &inner, HARD_MAX_FORMS);
    let known = vec![
        matches_among(html, "form", "form#searchform", HARD_MAX_FORMS),
        matches_among(html, "form", "form[action*='search']", HARD_MAX_FORMS),
        matches_among(html, "form", "form[action*='/s/']", HARD_MAX_FORMS),
        matches_among(html, "form", "form.search", HARD_MAX_FORMS),
    ];
    proof {
        assert(dom::selector_views(inner@) =~= seq!["input"@]);
        assert(mark_views(known@) =~= known_marks(document@.html));
    }
    judge_page(document, &anchors, &forms, &known)
}

proof fn form_among_is_own_site(
    forms: Seq<dom::BranchModel>,
    marks: Option<Seq<bool>>,
    page: weburl::UrlModel,
    from: int,
)
    ensures
        form_among(forms, marks, page, from) matches Some(form) ==> weburl::host_key(form.action)
            == weburl::host_key(page) && weburl::is_web(form.action) && !weburl::has_credentials(
            form.action,
        ) && form.form_index < forms.len(),
    decreases forms.len() - from,
{
    if 0 <= from < forms.len() {
        form_among_is_own_site(forms, marks, page, from + 1);
    }
}

proof fn form_of_is_own_site(
    forms: Seq<dom::BranchModel>,
    known: Seq<Seq<bool>>,
    page: weburl::UrlModel,
)
    ensures
        form_of(forms, known, page) matches Some(form) ==> weburl::host_key(form.action)
            == weburl::host_key(page) && weburl::is_web(form.action) && !weburl::has_credentials(
            form.action,
        ) && form.form_index < forms.len(),
    decreases known.len(),
{
    if known.len() == 0 {
        form_among_is_own_site(forms, None, page, 0);
    } else {
        form_among_is_own_site(forms, Some(known[0]), page, 0);
        form_of_is_own_site(forms, known.drop_first(), page);
    }
}

/// A form that a page is accepted for sends to the page's own site, over HTTP
/// or HTTPS and without credentials, and is one of the first
/// [`HARD_MAX_FORMS`].
pub proof fn accepted_forms_stay_on_site(document: browser::DocumentModel)
    ensures
        page_outcome(document) matches Ok(form) ==> {
            &&& weburl::host_key(form.action) == weburl::host_key(document.url)
            &&& weburl::is_web(form.action)
            &&& !weburl::has_credentials(form.action)
            &&& form.form_index < HARD_MAX_FORMS
        },
{
    let forms = bounded(
        dom::selected_within(document.html, "form"@, seq!["input"@]),
        HARD_MAX_FORMS as int,
    );
    form_of_is_own_site(
        bounded(forms, HARD_MAX_FORMS as int),
        known_marks(document.html),
        document.url,
    );
}

/// A page that shows a challenge or denies access is never accepted.
pub proof fn guarded_pages_are_refused(document: browser::DocumentModel)
    requires
        any_occurs(challenge_marks(), marked_text(document.html)) || any_occurs(
            denial_marks(),
            marked_text(document.html),
        ),
    ensures
        page_outcome(document) is Err,
{
}

} // verus!
