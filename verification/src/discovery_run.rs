//! One run of discovery: which page to check or render next, and what each
//! outcome changes.

use crate::browser;
use crate::browser::{BrowserError, Lookup, NavigationPolicy, RenderedDocument};
use crate::config::{DiscoveryConfig, HARD_MAX_CANDIDATES, HARD_MAX_SOURCE_PAGES};
use crate::discovery;
use crate::discovery::{
    extract_candidates, failure, normalize_candidate, reason_from_browser_error,
    validate_candidate_page, CandidateUrl, DiscoveryFailure, FailureReason, FailureStage, SearchForm,
};
use crate::health;
use crate::health::HealthCache;
use crate::paths;
use crate::paths::FilePath;
use crate::text;
use crate::text::same_text;
use crate::weburl;
use crate::weburl::Url;
use vstd::prelude::*;

verus! {

// -------------------------------------------------------------------- outcome

/// A usable candidate by its values.
#[verifier::ext_equal]
pub struct ValidatedModel {
    pub candidate: weburl::UrlModel,
    pub rendered_url: weburl::UrlModel,
    pub search_form: discovery::FormModel,
}

/// A candidate whose page has a search form.
#[derive(Debug, PartialEq, Eq)]
pub struct ValidatedCandidate {
    pub candidate: CandidateUrl,
    pub rendered_url: Url,
    pub search_form: SearchForm,
}

impl View for ValidatedCandidate {
    type V = ValidatedModel;

    open spec fn view(&self) -> ValidatedModel {
        ValidatedModel {
            candidate: self.candidate@,
            rendered_url: self.rendered_url@,
            search_form: self.search_form@,
        }
    }
}

impl Clone for ValidatedCandidate {
    fn clone(&self) -> (r: ValidatedCandidate)
        ensures
            r@ == self@,
    {
        ValidatedCandidate {
            candidate: self.candidate.clone(),
            rendered_url: self.rendered_url.clone(),
            search_form: self.search_form.clone(),
        }
    }
}

/// Usable candidates by their values.
pub open spec fn validated_views(list: Seq<ValidatedCandidate>) -> Seq<ValidatedModel> {
    Seq::new(list.len(), |i: int| list[i]@)
}

/// What discovery found.
#[derive(Debug, PartialEq, Eq)]
pub struct DiscoveryOutcome {
    pub candidates: Vec<ValidatedCandidate>,
    pub failures: Vec<DiscoveryFailure>,
    pub cache_warning: Option<String>,
}

/// Why discovery failed.
#[derive(Debug, PartialEq, Eq)]
pub enum DiscoveryError {
    NoUsableCandidates { failures: Vec<DiscoveryFailure>, cache_warning: Option<String> },
}

impl DiscoveryError {
    /// The failed attempts.
    pub fn failures(&self) -> (r: &Vec<DiscoveryFailure>)
        ensures
            *r == self->failures,
    {
        match self {
            DiscoveryError::NoUsableCandidates { failures, .. } => failures,
        }
    }

    /// The error in words.
    pub fn message(&self) -> (r: String)
        ensures
            r@ == "no usable Pirate Bay-compatible proxy candidate was found"@,
    {
        "no usable Pirate Bay-compatible proxy candidate was found".to_string()
    }
}

// ------------------------------------------------------------------ the model

/// What a run waits for.
#[derive(Debug, Clone, Copy, PartialEq, Eq, Structural)]
pub enum RunStage {
    SourceCheck,
    SourceRender,
    SourceRecheck,
    CandidateCheck,
    CandidateRender,
    CandidateRecheck,
    Complete,
}

/// What happened outside.
#[derive(Debug, PartialEq, Eq)]
pub enum DiscoveryEvent {
    /// The host of the address in question was looked up, as far as the policy
    /// asks for it.
    Looked(Lookup),
    /// The page in question was rendered, or could not be.
    Rendered(Result<RenderedDocument, BrowserError>),
}

/// An event by its values.
pub enum EventModel {
    Looked(Lookup),
    Rendered(Result<browser::DocumentModel, browser::BrowserFault>),
}

impl View for DiscoveryEvent {
    type V = EventModel;

    open spec fn view(&self) -> EventModel {
        match self {
            DiscoveryEvent::Looked(lookup) => EventModel::Looked(*lookup),
            DiscoveryEvent::Rendered(Ok(document)) => EventModel::Rendered(Ok(document@)),
            DiscoveryEvent::Rendered(Err(error)) => EventModel::Rendered(Err(error@)),
        }
    }
}

/// The state of a run.
#[verifier::ext_equal]
pub struct RunModel {
    pub allow_local: bool,
    pub sources: Seq<weburl::UrlModel>,
    pub limit: nat,
    pub now: u64,
    pub cache: Seq<health::EntryModel>,
    pub candidates: Seq<weburl::UrlModel>,
    pub failures: Seq<discovery::FailureModel>,
    pub validated: Seq<ValidatedModel>,
    pub stage: RunStage,
    pub index: nat,
    pub document: Option<browser::DocumentModel>,
}

/// A list of candidates with one more, unless it is full or holds the site.
pub open spec fn with_candidate(
    list: Seq<weburl::UrlModel>,
    url: weburl::UrlModel,
    limit: nat,
) -> Seq<weburl::UrlModel> {
    if list.len() >= limit || discovery::host_keys(list).contains(weburl::host_key(url)) {
        list
    } else {
        list.push(url)
    }
}

/// A list of candidates with several more, in order.
pub open spec fn with_candidates(
    list: Seq<weburl::UrlModel>,
    urls: Seq<weburl::UrlModel>,
    limit: nat,
) -> Seq<weburl::UrlModel>
    decreases urls.len(),
{
    if urls.len() == 0 {
        list
    } else {
        with_candidate(with_candidates(list, urls.drop_last(), limit), urls.last(), limit)
    }
}

/// A list of candidates with the seeds that are ones.
pub open spec fn with_seeds(
    list: Seq<weburl::UrlModel>,
    seeds: Seq<weburl::UrlModel>,
    limit: nat,
) -> Seq<weburl::UrlModel>
    decreases seeds.len(),
{
    if seeds.len() == 0 {
        list
    } else {
        let before = with_seeds(list, seeds.drop_last(), limit);
        match discovery::normalized(seeds.last()) {
            Some(url) => with_candidate(before, url, limit),
            None => before,
        }
    }
}

/// The failures of the seeds that are no candidates.
pub open spec fn seed_failures(seeds: Seq<weburl::UrlModel>) -> Seq<discovery::FailureModel>
    decreases seeds.len(),
{
    if seeds.len() == 0 {
        Seq::empty()
    } else {
        let before = seed_failures(seeds.drop_last());
        match discovery::normalized(seeds.last()) {
            Some(_) => before,
            None => before.push(
                discovery::failure_at(
                    FailureStage::CandidatePreflight,
                    seeds.last(),
                    FailureReason::RejectedNavigation,
                ),
            ),
        }
    }
}

/// Whether a look-up can come out so that the policy lets a page be opened.
pub open spec fn may_be_opened(allow_local: bool, url: weburl::UrlModel) -> bool {
    exists|lookup: Lookup| #[trigger] browser::policy_outcome(allow_local, url, lookup) is Ok
}

/// The candidates of usable candidates.
pub open spec fn found_candidates(list: Seq<ValidatedModel>) -> Seq<weburl::UrlModel> {
    Seq::new(list.len(), |i: int| list[i].candidate)
}

/// Whether no failure tells credentials, a query or a fragment.
pub open spec fn tells_nothing_private(failures: Seq<discovery::FailureModel>) -> bool {
    forall|i: int|
        0 <= i < failures.len() ==> weburl::shows_nothing_private((#[trigger] failures[i]).url)
}

impl RunModel {
    /// The state with the next candidate to check, or none left.
    pub open spec fn at_candidate(self, index: nat) -> RunModel {
        RunModel {
            stage: if index < self.candidates.len() {
                RunStage::CandidateCheck
            } else {
                RunStage::Complete
            },
            index,
            document: None,
            ..self
        }
    }

    /// The state with the next source to check. A full list of candidates ends
    /// the sources.
    pub open spec fn at_source(self, index: nat) -> RunModel {
        if index < self.sources.len() && self.candidates.len() < self.limit {
            RunModel { stage: RunStage::SourceCheck, index, document: None, ..self }
        } else {
            self.at_candidate(0)
        }
    }

    /// The state with one more failure.
    pub open spec fn failed(
        self,
        stage: FailureStage,
        url: weburl::UrlModel,
        reason: FailureReason,
    ) -> RunModel {
        RunModel { failures: self.failures.push(discovery::failure_at(stage, url, reason)), ..self }
    }

    /// The state after the current candidate failed.
    pub open spec fn candidate_failed(
        self,
        stage: FailureStage,
        url: weburl::UrlModel,
        reason: FailureReason,
    ) -> RunModel {
        let noted = self.failed(stage, url, reason);
        RunModel {
            cache: health::after_failure(
                self.cache,
                self.candidates[self.index as int],
                self.now,
            ),
            ..noted
        }.at_candidate(self.index + 1)
    }

    /// Whether the policy lets a page be opened.
    pub open spec fn permits(self, url: weburl::UrlModel, lookup: Lookup) -> bool {
        browser::policy_outcome(self.allow_local, url, lookup) is Ok
    }

    /// The address of the source page was looked up.
    pub open spec fn source_checked(self, lookup: Lookup) -> RunModel {
        let url = self.sources[self.index as int];
        if self.permits(url, lookup) {
            RunModel { stage: RunStage::SourceRender, ..self }
        } else {
            self.failed(
                FailureStage::DiscoverySource,
                url,
                FailureReason::RejectedNavigation,
            ).at_source(self.index + 1)
        }
    }

    /// The source page was rendered.
    pub open spec fn source_rendered(
        self,
        result: Result<browser::DocumentModel, browser::BrowserFault>,
    ) -> RunModel {
        match result {
            Ok(document) => RunModel {
                stage: RunStage::SourceRecheck,
                document: Some(document),
                ..self
            },
            Err(fault) => self.failed(
                FailureStage::DiscoverySource,
                self.sources[self.index as int],
                discovery::reason_of(fault),
            ).at_source(self.index + 1),
        }
    }

    /// The address at which the source page ended was looked up.
    pub open spec fn source_rechecked(self, lookup: Lookup) -> RunModel {
        let document = self.document->0;
        if self.permits(document.url, lookup) {
            RunModel {
                candidates: with_candidates(
                    self.candidates,
                    discovery::extracted(document, (self.limit - self.candidates.len()) as nat),
                    self.limit,
                ),
                ..self
            }.at_source(self.index + 1)
        } else {
            self.failed(
                FailureStage::DiscoverySource,
                document.url,
                FailureReason::RejectedNavigation,
            ).at_source(self.index + 1)
        }
    }

    /// The address of the candidate was looked up.
    pub open spec fn candidate_checked(self, lookup: Lookup) -> RunModel {
        let url = self.candidates[self.index as int];
        if self.permits(url, lookup) {
            RunModel { stage: RunStage::CandidateRender, ..self }
        } else {
            self.candidate_failed(
                FailureStage::CandidatePreflight,
                url,
                FailureReason::RejectedNavigation,
            )
        }
    }

    /// The candidate's page was rendered.
    pub open spec fn candidate_rendered(
        self,
        result: Result<browser::DocumentModel, browser::BrowserFault>,
    ) -> RunModel {
        match result {
            Ok(document) => RunModel {
                stage: RunStage::CandidateRecheck,
                document: Some(document),
                ..self
            },
            Err(fault) => self.candidate_failed(
                FailureStage::CandidateRender,
                self.candidates[self.index as int],
                discovery::reason_of(fault),
            ),
        }
    }

    /// The address at which the candidate's page ended was looked up.
    pub open spec fn candidate_rechecked(self, lookup: Lookup) -> RunModel {
        let document = self.document->0;
        let url = self.candidates[self.index as int];
        if !self.permits(document.url, lookup) {
            self.candidate_failed(
                FailureStage::CandidateValidation,
                document.url,
                FailureReason::RejectedNavigation,
            )
        } else {
            match discovery::page_outcome(document) {
                Ok(form) => RunModel {
                    cache: health::after_success(self.cache, url, self.now),
                    validated: self.validated.push(
                        ValidatedModel {
                            candidate: url,
                            rendered_url: document.url,
                            search_form: form,
                        },
                    ),
                    ..self
                }.at_candidate(self.index + 1),
                Err(reason) => self.candidate_failed(
                    FailureStage::CandidateValidation,
                    url,
                    reason,
                ),
            }
        }
    }

    /// What an event changes. One that the run does not wait for changes nothing.
    pub open spec fn step(self, event: EventModel) -> RunModel {
        match (self.stage, event) {
            (RunStage::SourceCheck, EventModel::Looked(lookup)) => self.source_checked(lookup),
            (RunStage::SourceRender, EventModel::Rendered(result)) => self.source_rendered(result),
            (RunStage::SourceRecheck, EventModel::Looked(lookup)) => self.source_rechecked(lookup),
            (RunStage::CandidateCheck, EventModel::Looked(lookup)) => self.candidate_checked(
                lookup,
            ),
            (RunStage::CandidateRender, EventModel::Rendered(result)) => self.candidate_rendered(
                result,
            ),
            (RunStage::CandidateRecheck, EventModel::Looked(lookup)) => self.candidate_rechecked(
                lookup,
            ),
            _ => self,
        }
    }

    /// How many candidates are done with.
    pub open spec fn done(self) -> nat {
        match self.stage {
            RunStage::SourceCheck | RunStage::SourceRender | RunStage::SourceRecheck => 0,
            _ => self.index,
        }
    }

    /// What holds of the usable candidates: each is one of those that are done
    /// with, no two are of one site, and the policy permitted both the address of
    /// each and the one at which its page ended.
    pub open spec fn findings_are_sound(self) -> bool {
        &&& self.validated.len() <= self.done() <= self.validated.len() + self.failures.len()
        &&& discovery::all_distinct(discovery::host_keys(found_candidates(self.validated)))
        &&& forall|i: int|
            0 <= i < self.validated.len() ==> {
                let found = #[trigger] self.validated[i];
                &&& self.candidates.take(self.done() as int).contains(found.candidate)
                &&& may_be_opened(self.allow_local, found.candidate)
                &&& may_be_opened(self.allow_local, found.rendered_url)
            }
    }

    /// What holds of every state: the stage has what it speaks of, the candidates
    /// are of different sites and within their limit, and so are the usable ones
    /// among them. No failure tells credentials, a query or a fragment.
    pub open spec fn is_sound(self) -> bool {
        &&& match self.stage {
            RunStage::SourceCheck => self.index < self.sources.len() && self.document is None,
            RunStage::SourceRender => self.index < self.sources.len() && self.document is None,
            RunStage::SourceRecheck => self.index < self.sources.len() && self.document is Some,
            RunStage::CandidateCheck => self.index < self.candidates.len() && self.document is None,
            RunStage::CandidateRender => self.index < self.candidates.len()
                && self.document is None && may_be_opened(
                self.allow_local,
                self.candidates[self.index as int],
            ),
            RunStage::CandidateRecheck => self.index < self.candidates.len()
                && self.document is Some && may_be_opened(
                self.allow_local,
                self.candidates[self.index as int],
            ),
            RunStage::Complete => self.index == self.candidates.len() && self.document is None,
        }
        &&& self.candidates.len() <= self.limit <= HARD_MAX_CANDIDATES
        &&& discovery::all_distinct(discovery::host_keys(self.candidates))
        &&& discovery::all_candidates(self.candidates)
        &&& self.findings_are_sound()
        &&& tells_nothing_private(self.failures)
        &&& self.sources.len() <= HARD_MAX_SOURCE_PAGES
        &&& self.cache.len() <= health::HARD_MAX_CACHE_ENTRIES
    }
}

/// The smaller of two counts.
pub open spec fn lesser(a: nat, b: nat) -> nat {
    if a < b {
        a
    } else {
        b
    }
}

/// The state in which a run starts.
pub open spec fn started(
    allow_local: bool,
    now: u64,
    cache: Seq<health::EntryModel>,
    settings: DiscoveryConfig,
) -> RunModel {
    let limit = lesser(settings.max_candidates@, HARD_MAX_CANDIDATES as nat);
    let source_limit = lesser(settings.max_source_pages@, HARD_MAX_SOURCE_PAGES as nat);
    let seeds = weburl::url_views(settings.seed_candidates@);
    let cached = health::fresh_candidates(cache, now, settings.cache_ttl_seconds, limit as int);
    RunModel {
        allow_local,
        sources: discovery::bounded(
            weburl::url_views(settings.source_pages@),
            source_limit as int,
        ),
        limit,
        now,
        cache,
        candidates: with_seeds(with_candidates(Seq::empty(), cached, limit), seeds, limit),
        failures: seed_failures(seeds),
        validated: Seq::empty(),
        stage: RunStage::Complete,
        index: 0,
        document: None,
    }.at_source(0)
}

// -------------------------------------------------------------------- the run

/// What is to be done outside.
#[derive(Debug, PartialEq, Eq)]
pub enum DiscoveryAction {
    /// Look up the host of the address, as far as the policy asks for it.
    Check(Url),
    /// Render the page at the address.
    Render(Url),
    /// Nothing: the run is complete.
    Finished,
}

/// An action by its values.
pub enum ActionModel {
    Check(weburl::UrlModel),
    Render(weburl::UrlModel),
    Finished,
}

impl View for DiscoveryAction {
    type V = ActionModel;

    open spec fn view(&self) -> ActionModel {
        match self {
            DiscoveryAction::Check(url) => ActionModel::Check(url@),
            DiscoveryAction::Render(url) => ActionModel::Render(url@),
            DiscoveryAction::Finished => ActionModel::Finished,
        }
    }
}

/// What a state asks for.
pub open spec fn action_of(m: RunModel) -> ActionModel {
    match m.stage {
        RunStage::SourceCheck => ActionModel::Check(m.sources[m.index as int]),
        RunStage::SourceRender => ActionModel::Render(m.sources[m.index as int]),
        RunStage::SourceRecheck => ActionModel::Check(m.document->0.url),
        RunStage::CandidateCheck => ActionModel::Check(m.candidates[m.index as int]),
        RunStage::CandidateRender => ActionModel::Render(m.candidates[m.index as int]),
        RunStage::CandidateRecheck => ActionModel::Check(m.document->0.url),
        RunStage::Complete => ActionModel::Finished,
    }
}

/// A run of discovery.
#[derive(Debug, PartialEq, Eq)]
pub struct DiscoveryRun {
    policy: NavigationPolicy,
    sources: Vec<Url>,
    limit: usize,
    now: u64,
    cache: HealthCache,
    candidates: Vec<CandidateUrl>,
    failures: Vec<DiscoveryFailure>,
    validated: Vec<ValidatedCandidate>,
    stage: RunStage,
    index: usize,
    document: Option<RenderedDocument>,
}

impl View for DiscoveryRun {
    type V = RunModel;

    closed spec fn view(&self) -> RunModel {
        RunModel {
            allow_local: self.policy.allows_local(),
            sources: weburl::url_views(self.sources@),
            limit: self.limit as nat,
            now: self.now,
            cache: self.cache@,
            candidates: discovery::candidate_views(self.candidates@),
            failures: discovery::failure_views(self.failures@),
            validated: validated_views(self.validated@),
            stage: self.stage,
            index: self.index as nat,
            document: match self.document {
                Some(document) => Some(document@),
                None => None,
            },
        }
    }
}

/// Puts a candidate on the list, unless it is full or holds the site.
fn push_candidate(list: &mut Vec<CandidateUrl>, candidate: CandidateUrl, limit: usize)
    ensures
        discovery::candidate_views(final(list)@) == with_candidate(
            discovery::candidate_views(old(list)@),
            candidate@,
            limit as nat,
        ),
{
    if list.len() >= limit {
        return;
    }
    let key = candidate.as_url().host_key();
    let ghost known = discovery::host_keys(discovery::candidate_views(list@));
    let mut i: usize = 0;
    while i < list.len()
        invariant
            i <= list@.len(),
            known == discovery::host_keys(discovery::candidate_views(list@)),
            key@ == weburl::host_key(candidate@),
            list@ == old(list)@,
            forall|j: int| 0 <= j < i ==> known[j] != key@,
        decreases list@.len() - i,
    {
        let other = list[i].as_url().host_key();
        if same_text(other.as_str(), key.as_str()) {
            proof {
                assert(known[i as int] == key@);
            }
            return;
        }
        i = i + 1;
    }
    let ghost before = discovery::candidate_views(list@);
    list.push(candidate);
    proof {
        assert(discovery::candidate_views(list@) =~= before.push(candidate@));
    }
}

fn push_candidates(list: &mut Vec<CandidateUrl>, more: Vec<CandidateUrl>, limit: usize)
    ensures
        discovery::candidate_views(final(list)@) == with_candidates(
            discovery::candidate_views(old(list)@),
            discovery::candidate_views(more@),
            limit as nat,
        ),
{
    let ghost start = discovery::candidate_views(list@);
    let ghost all = discovery::candidate_views(more@);
    let mut i: usize = 0;
    proof {
        assert(all.take(0) =~= Seq::empty());
    }
    while i < more.len()
        invariant
            i <= more@.len(),
            all == discovery::candidate_views(more@),
            discovery::candidate_views(list@) == with_candidates(
                start,
                all.take(i as int),
                limit as nat,
            ),
        decreases more@.len() - i,
    {
        proof {
            assert(all.take(i as int + 1).drop_last() =~= all.take(i as int));
            assert(all.take(i as int + 1).last() == more@[i as int]@);
        }
        push_candidate(list, more[i].clone(), limit);
        i = i + 1;
    }
    proof {
        assert(all.take(all.len() as int) =~= all);
    }
}

fn push_seeds(
    list: &mut Vec<CandidateUrl>,
    failures: &mut Vec<DiscoveryFailure>,
    seeds: &Vec<Url>,
    limit: usize,
)
    requires
        old(failures)@.len() == 0,
    ensures
        discovery::candidate_views(final(list)@) == with_seeds(
            discovery::candidate_views(old(list)@),
            weburl::url_views(seeds@),
            limit as nat,
        ),
        discovery::failure_views(final(failures)@) == seed_failures(weburl::url_views(seeds@)),
{
    let ghost start = discovery::candidate_views(list@);
    let ghost all = weburl::url_views(seeds@);
    let mut i: usize = 0;
    proof {
        assert(all.take(0) =~= Seq::empty());
        assert(discovery::failure_views(failures@) =~= Seq::empty());
    }
    while i < seeds.len()
        invariant
            i <= seeds@.len(),
            all == weburl::url_views(seeds@),
            discovery::candidate_views(list@) == with_seeds(start, all.take(i as int), limit as nat),
            discovery::failure_views(failures@) == seed_failures(all.take(i as int)),
        decreases seeds@.len() - i,
    {
        proof {
            assert(all.take(i as int + 1).drop_last() =~= all.take(i as int));
            assert(all.take(i as int + 1).last() == seeds@[i as int]@);
        }
        match normalize_candidate(seeds[i].clone()) {
            Ok(candidate) => push_candidate(list, candidate, limit),
            Err(reason) => {
                let ghost before = discovery::failure_views(failures@);
                let noted = failure(FailureStage::CandidatePreflight, &seeds[i], reason);
                failures.push(noted);
                proof {
                    assert(discovery::failure_views(failures@) =~= before.push(noted@));
                }
            },
        }
        i = i + 1;
    }
    proof {
        assert(all.take(all.len() as int) =~= all);
    }
}

fn copy_urls(urls: &Vec<Url>, limit: usize) -> (r: Vec<Url>)
    ensures
        weburl::url_views(r@) == discovery::bounded(weburl::url_views(urls@), limit as int),
{
    let ghost all = weburl::url_views(urls@);
    let mut out: Vec<Url> = Vec::new();
    let mut i: usize = 0;
    proof {
        assert(weburl::url_views(out@) =~= all.take(0));
    }
    while i < urls.len() && i < limit
        invariant
            i <= urls@.len(),
            i <= limit,
            all == weburl::url_views(urls@),
            weburl::url_views(out@) == all.take(i as int),
        decreases urls@.len() - i,
    {
        let ghost before = weburl::url_views(out@);
        let url = urls[i].clone();
        out.push(url);
        proof {
            assert(weburl::url_views(out@) =~= before.push(url@));
            assert(all.take(i as int + 1) =~= all.take(i as int).push(all[i as int]));
        }
        i = i + 1;
    }
    out
}

impl DiscoveryRun {
    /// What the run asks for.
    pub fn action(&self) -> (r: DiscoveryAction)
        requires
            self@.is_sound(),
        ensures
            r@ == action_of(self@),
    {
        match self.stage {
            RunStage::SourceCheck => DiscoveryAction::Check(self.sources[self.index].clone()),
            RunStage::SourceRender => DiscoveryAction::Render(self.sources[self.index].clone()),
            RunStage::CandidateCheck => DiscoveryAction::Check(
                self.candidates[self.index].as_url().clone(),
            ),
            RunStage::CandidateRender => DiscoveryAction::Render(
                self.candidates[self.index].as_url().clone(),
            ),
            RunStage::Complete => DiscoveryAction::Finished,
            _ => match &self.document {
                Some(document) => DiscoveryAction::Check(document.url.clone()),
                None => DiscoveryAction::Finished,
            },
        }
    }

    fn go_to_candidate(&mut self, index: usize)
        ensures
            final(self)@ == old(self)@.at_candidate(index as nat),
    {
        self.stage = if index < self.candidates.len() {
            RunStage::CandidateCheck
        } else {
            RunStage::Complete
        };
        self.index = index;
        self.document = None;
        proof {
            assert(self@ =~= old(self)@.at_candidate(index as nat));
        }
    }

    fn go_to_source(&mut self, index: usize)
        ensures
            final(self)@ == old(self)@.at_source(index as nat),
    {
        if index < self.sources.len() && self.candidates.len() < self.limit {
            self.stage = RunStage::SourceCheck;
            self.index = index;
            self.document = None;
            proof {
                assert(self@ =~= old(self)@.at_source(index as nat));
            }
        } else {
            self.go_to_candidate(0);
        }
    }

    fn note(&mut self, noted: DiscoveryFailure)
        ensures
            final(self)@ == (RunModel {
                failures: old(self)@.failures.push(noted@),
                ..old(self)@
            }),
    {
        self.failures.push(noted);
        proof {
            assert(discovery::failure_views(self.failures@) =~= old(self)@.failures.push(noted@));
            assert(self@ =~= (RunModel {
                failures: old(self)@.failures.push(noted@),
                ..old(self)@
            }));
        }
    }

    fn fail_candidate(&mut self, noted: DiscoveryFailure)
        requires
            old(self)@.index < old(self)@.candidates.len(),
        ensures
            final(self)@ == (RunModel {
                failures: old(self)@.failures.push(noted@),
                cache: health::after_failure(
                    old(self)@.cache,
                    old(self)@.candidates[old(self)@.index as int],
                    old(self)@.now,
                ),
                ..old(self)@
            }).at_candidate(old(self)@.index + 1),
    {
        self.note(noted);
        let size = self.candidates.len();
        proof {
            assert(self.index < size);
        }
        let next = self.index + 1;
        let url = self.candidates[self.index].as_url().clone();
        self.cache.record_failure(&url, self.now);
        self.go_to_candidate(next);
        proof {
            assert(self@ =~= (RunModel {
                failures: old(self)@.failures.push(noted@),
                cache: health::after_failure(
                    old(self)@.cache,
                    old(self)@.candidates[old(self)@.index as int],
                    old(self)@.now,
                ),
                ..old(self)@
            }).at_candidate(old(self)@.index + 1));
        }
    }

    fn on_source_checked(&mut self, lookup: &Lookup)
        requires
            old(self)@.is_sound(),
            old(self)@.stage == RunStage::SourceCheck,
        ensures
            final(self)@ == old(self)@.source_checked(*lookup),
    {
        let url = self.sources[self.index].clone();
        match self.policy.validate(&url, lookup) {
            Ok(_) => {
                self.stage = RunStage::SourceRender;
            },
            Err(_) => {
                self.note(
                    failure(
                        FailureStage::DiscoverySource,
                        &url,
                        FailureReason::RejectedNavigation,
                    ),
                );
                let next = self.index + 1;
                self.go_to_source(next);
            },
        }
    }

    fn on_source_rendered(&mut self, result: Result<RenderedDocument, BrowserError>)
        requires
            old(self)@.is_sound(),
            old(self)@.stage == RunStage::SourceRender,
        ensures
            final(self)@ == old(self)@.step(DiscoveryEvent::Rendered(result)@),
    {
        match result {
            Ok(document) => {
                self.document = Some(document);
                self.stage = RunStage::SourceRecheck;
            },
            Err(error) => {
                let url = self.sources[self.index].clone();
                let reason = reason_from_browser_error(&error);
                self.note(failure(FailureStage::DiscoverySource, &url, reason));
                let next = self.index + 1;
                self.go_to_source(next);
            },
        }
    }

    fn on_source_rechecked(&mut self, lookup: &Lookup)
        requires
            old(self)@.is_sound(),
            old(self)@.stage == RunStage::SourceRecheck,
        ensures
            final(self)@ == old(self)@.source_rechecked(*lookup),
    {
        let next = self.index + 1;
        let ghost before = self@;
        match self.document.take() {
            Some(document) => {
                match self.policy.validate(&document.url, lookup) {
                    Ok(_) => {
                        let remaining = self.limit - self.candidates.len();
                        let found = extract_candidates(&document, remaining);
                        push_candidates(&mut self.candidates, found, self.limit);
                    },
                    Err(_) => {
                        self.note(
                            failure(
                                FailureStage::DiscoverySource,
                                &document.url,
                                FailureReason::RejectedNavigation,
                            ),
                        );
                    },
                }
                self.go_to_source(next);
                proof {
                    assert(self@ =~= before.source_rechecked(*lookup));
                }
            },
            None => {},
        }
    }

    fn on_candidate_checked(&mut self, lookup: &Lookup)
        requires
            old(self)@.is_sound(),
            old(self)@.stage == RunStage::CandidateCheck,
        ensures
            final(self)@ == old(self)@.candidate_checked(*lookup),
    {
        let url = self.candidates[self.index].as_url().clone();
        match self.policy.validate(&url, lookup) {
            Ok(_) => {
                self.stage = RunStage::CandidateRender;
            },
            Err(_) => {
                self.fail_candidate(
                    failure(
                        FailureStage::CandidatePreflight,
                        &url,
                        FailureReason::RejectedNavigation,
                    ),
                );
            },
        }
    }

    fn on_candidate_rendered(&mut self, result: Result<RenderedDocument, BrowserError>)
        requires
            old(self)@.is_sound(),
            old(self)@.stage == RunStage::CandidateRender,
        ensures
            final(self)@ == old(self)@.step(DiscoveryEvent::Rendered(result)@),
    {
        match result {
            Ok(document) => {
                self.document = Some(document);
                self.stage = RunStage::CandidateRecheck;
            },
            Err(error) => {
                let url = self.candidates[self.index].as_url().clone();
                let reason = reason_from_browser_error(&error);
                self.fail_candidate(failure(FailureStage::CandidateRender, &url, reason));
            },
        }
    }

    fn on_candidate_rechecked(&mut self, lookup: &Lookup)
        requires
            old(self)@.is_sound(),
            old(self)@.stage == RunStage::CandidateRecheck,
        ensures
            final(self)@ == old(self)@.candidate_rechecked(*lookup),
    {
        let ghost before = self@;
        let document = match self.document.take() {
            Some(document) => document,
            None => {
                return;
            },
        };
        if self.policy.validate(&document.url, lookup).is_err() {
            self.fail_candidate(
                failure(
                    FailureStage::CandidateValidation,
                    &document.url,
                    FailureReason::RejectedNavigation,
                ),
            );
            proof {
                assert(self@ =~= before.candidate_rechecked(*lookup));
            }
            return;
        }
        let candidate = self.candidates[self.index].clone();
        match validate_candidate_page(&document) {
            Ok(search_form) => {
                self.cache.record_success(candidate.as_url(), self.now);
                let usable = ValidatedCandidate {
                    candidate,
                    rendered_url: document.url,
                    search_form,
                };
                let ghost sofar = validated_views(self.validated@);
                self.validated.push(usable);
                proof {
                    assert(validated_views(self.validated@) =~= sofar.push(usable@));
                }
                let next = self.index + 1;
                self.go_to_candidate(next);
                proof {
                    assert(self@ =~= before.candidate_rechecked(*lookup));
                }
            },
            Err(reason) => {
                self.fail_candidate(
                    failure(FailureStage::CandidateValidation, candidate.as_url(), reason),
                );
                proof {
                    assert(self@ =~= before.candidate_rechecked(*lookup));
                }
            },
        }
    }

    /// Takes in what happened.
    pub fn handle(&mut self, event: DiscoveryEvent)
        requires
            old(self)@.is_sound(),
        ensures
            final(self)@ == old(self)@.step(event@),
            final(self)@.is_sound(),
    {
        proof {
            steps_stay_sound(self@, event@);
        }
        match event {
            DiscoveryEvent::Looked(lookup) => match self.stage {
                RunStage::SourceCheck => self.on_source_checked(&lookup),
                RunStage::SourceRecheck => self.on_source_rechecked(&lookup),
                RunStage::CandidateCheck => self.on_candidate_checked(&lookup),
                RunStage::CandidateRecheck => self.on_candidate_rechecked(&lookup),
                _ => {},
            },
            DiscoveryEvent::Rendered(result) => match self.stage {
                RunStage::SourceRender => self.on_source_rendered(result),
                RunStage::CandidateRender => self.on_candidate_rendered(result),
                _ => {},
            },
        }
    }

    /// The record of what worked, for storing.
    pub fn cache(&self) -> (r: &HealthCache)
        ensures
            r@ == self@.cache,
    {
        &self.cache
    }

    /// What the run found, once the record was stored or could not be.
    pub fn finish(self, cache_saved: bool) -> (r: Result<DiscoveryOutcome, DiscoveryError>)
        ensures
            match r {
                Ok(outcome) => self@.validated.len() > 0 && validated_views(outcome.candidates@)
                    == self@.validated && discovery::failure_views(outcome.failures@)
                    == self@.failures && text::opt_view(outcome.cache_warning) == cache_warning(
                    cache_saved,
                ),
                Err(error) => self@.validated.len() == 0 && discovery::failure_views(
                    error->failures@,
                ) == self@.failures && text::opt_view(error->cache_warning) == cache_warning(
                    cache_saved,
                ),
            },
    {
        let cache_warning = if cache_saved {
            None
        } else {
            Some("proxy health cache could not be updated".to_string())
        };
        if self.validated.len() == 0 {
            return Err(
                DiscoveryError::NoUsableCandidates { failures: self.failures, cache_warning },
            );
        }
        Ok(
            DiscoveryOutcome {
                candidates: self.validated,
                failures: self.failures,
                cache_warning,
            },
        )
    }
}

/// The warning about a record that could not be stored.
pub open spec fn cache_warning(saved: bool) -> Option<Seq<char>> {
    if saved {
        None
    } else {
        Some("proxy health cache could not be updated"@)
    }
}

// ----------------------------------------------------------------- the engine

/// What discovery runs with: its policy, its cache file, and the time.
#[derive(Debug, PartialEq, Eq)]
pub struct DiscoveryEngine {
    policy: NavigationPolicy,
    cache_file: FilePath,
    now_seconds: u64,
}

impl DiscoveryEngine {
    /// Whether pages of this machine may be opened.
    pub closed spec fn allows_local(&self) -> bool {
        self.policy.allows_local()
    }

    /// Where the cache is.
    pub closed spec fn file(&self) -> Seq<u8> {
        self.cache_file@
    }

    /// The time, in seconds since the epoch.
    pub closed spec fn now(&self) -> u64 {
        self.now_seconds
    }

    /// An engine that opens public destinations only.
    pub fn production(cache_dir: &FilePath, now_seconds: u64) -> (r: DiscoveryEngine)
        ensures
            !r.allows_local(),
            r.file() == paths::joined(cache_dir@, vstd::utf8::encode_utf8("proxy-health.json"@)),
            r.now() == now_seconds,
    {
        DiscoveryEngine::with_policy(cache_dir, NavigationPolicy::production(), now_seconds)
    }

    /// An engine with a policy of its own.
    pub fn with_policy(cache_dir: &FilePath, policy: NavigationPolicy, now_seconds: u64) -> (r:
        DiscoveryEngine)
        ensures
            r.allows_local() == policy.allows_local(),
            r.file() == paths::joined(cache_dir@, vstd::utf8::encode_utf8("proxy-health.json"@)),
            r.now() == now_seconds,
    {
        let cache_file = cache_dir.join(&FilePath::new("proxy-health.json"));
        DiscoveryEngine { policy, cache_file, now_seconds }
    }

    /// Where the cache is.
    pub fn cache_file(&self) -> (r: &FilePath)
        ensures
            r@ == self.file(),
    {
        &self.cache_file
    }

    /// The policy that says which pages may be opened.
    pub fn policy(&self) -> (r: NavigationPolicy)
        ensures
            r.allows_local() == self.allows_local(),
    {
        self.policy
    }

    /// Starts a run: the candidates are the fresh ones of the cache, then the
    /// seeds, then what the source pages list.
    pub fn discover_and_validate(&self, cache: HealthCache, settings: &DiscoveryConfig) -> (r:
        DiscoveryRun)
        ensures
            r@ == started(self.allows_local(), self.now(), cache@, *settings),
            r@.is_sound(),
    {
        let wanted = settings.max_candidates.get();
        let limit = if wanted < HARD_MAX_CANDIDATES {
            wanted
        } else {
            HARD_MAX_CANDIDATES
        };
        let pages = settings.max_source_pages.get();
        let source_limit = if pages < HARD_MAX_SOURCE_PAGES {
            pages
        } else {
            HARD_MAX_SOURCE_PAGES
        };
        let stored = cache.entries();
        proof {
            assert(stored@.len() == health::entry_views(stored@).len());
        }
        let cached = cache.fresh_successes(self.now_seconds, settings.cache_ttl_seconds, limit);
        let mut candidates: Vec<CandidateUrl> = Vec::new();
        let mut failures: Vec<DiscoveryFailure> = Vec::new();
        proof {
            assert(discovery::candidate_views(candidates@) =~= Seq::empty());
        }
        push_candidates(&mut candidates, cached, limit);
        push_seeds(&mut candidates, &mut failures, &settings.seed_candidates, limit);
        let sources = copy_urls(&settings.source_pages, source_limit);
        let mut run = DiscoveryRun {
            policy: self.policy,
            sources,
            limit,
            now: self.now_seconds,
            cache,
            candidates,
            failures,
            validated: Vec::new(),
            stage: RunStage::Complete,
            index: 0,
            document: None,
        };
        proof {
            assert(validated_views(run.validated@) =~= Seq::empty());
            let list = health::fresh_candidates(
                cache@,
                self.now(),
                settings.cache_ttl_seconds,
                limit as int,
            );
            health::fresh_candidates_are_candidates(
                cache@,
                self.now(),
                settings.cache_ttl_seconds,
                limit as int,
            );
            candidates_stay_sound(Seq::empty(), list, limit as nat);
            seed_failures_are_sound(weburl::url_views(settings.seed_candidates@));
            seeds_stay_sound(
                with_candidates(Seq::empty(), list, limit as nat),
                weburl::url_views(settings.seed_candidates@),
                limit as nat,
            );
        }
        run.go_to_source(0);
        proof {
            assert(run@ =~= started(self.allows_local(), self.now(), cache@, *settings));
        }
        run
    }
}

// ----------------------------------------------------------------------- laws

proof fn candidate_stays_sound(list: Seq<weburl::UrlModel>, url: weburl::UrlModel, limit: nat)
    requires
        list.len() <= limit,
        discovery::all_distinct(discovery::host_keys(list)),
        discovery::all_candidates(list),
        discovery::is_candidate(url),
    ensures
        with_candidate(list, url, limit).len() <= limit,
        discovery::all_distinct(discovery::host_keys(with_candidate(list, url, limit))),
        discovery::all_candidates(with_candidate(list, url, limit)),
{
    let after = with_candidate(list, url, limit);
    let known = discovery::host_keys(list);
    let keys = discovery::host_keys(after);
    if after != list {
        assert(keys =~= known.push(weburl::host_key(url)));
        assert forall|i: int, j: int| 0 <= i < j < keys.len() implies #[trigger] keys[i]
            != #[trigger] keys[j] by {
            if j == known.len() {
                assert(known[i] == keys[i]);
            } else {
                assert(known[i] == keys[i] && known[j] == keys[j]);
            }
        }
    }
}

proof fn candidates_stay_sound(
    list: Seq<weburl::UrlModel>,
    urls: Seq<weburl::UrlModel>,
    limit: nat,
)
    requires
        list.len() <= limit,
        discovery::all_distinct(discovery::host_keys(list)),
        discovery::all_candidates(list),
        discovery::all_candidates(urls),
    ensures
        with_candidates(list, urls, limit).len() <= limit,
        discovery::all_distinct(discovery::host_keys(with_candidates(list, urls, limit))),
        discovery::all_candidates(with_candidates(list, urls, limit)),
    decreases urls.len(),
{
    if urls.len() > 0 {
        candidates_stay_sound(list, urls.drop_last(), limit);
        candidate_stays_sound(with_candidates(list, urls.drop_last(), limit), urls.last(), limit);
    }
}

proof fn seeds_stay_sound(list: Seq<weburl::UrlModel>, seeds: Seq<weburl::UrlModel>, limit: nat)
    requires
        list.len() <= limit,
        discovery::all_distinct(discovery::host_keys(list)),
        discovery::all_candidates(list),
    ensures
        with_seeds(list, seeds, limit).len() <= limit,
        discovery::all_distinct(discovery::host_keys(with_seeds(list, seeds, limit))),
        discovery::all_candidates(with_seeds(list, seeds, limit)),
    decreases seeds.len(),
{
    if seeds.len() > 0 {
        seeds_stay_sound(list, seeds.drop_last(), limit);
        if let Some(url) = discovery::normalized(seeds.last()) {
            discovery::normalized_again(seeds.last());
            candidate_stays_sound(with_seeds(list, seeds.drop_last(), limit), url, limit);
        }
    }
}

proof fn seed_failures_are_sound(seeds: Seq<weburl::UrlModel>)
    ensures
        tells_nothing_private(seed_failures(seeds)),
    decreases seeds.len(),
{
    if seeds.len() > 0 {
        seed_failures_are_sound(seeds.drop_last());
        weburl::reads_as_public(seeds.last().href);
    }
}

proof fn failures_stay_sound(
    m: RunModel,
    stage: FailureStage,
    url: weburl::UrlModel,
    reason: FailureReason,
)
    requires
        tells_nothing_private(m.failures),
    ensures
        tells_nothing_private(m.failed(stage, url, reason).failures),
{
    weburl::reads_as_public(url.href);
}

proof fn findings_stay_sound(m: RunModel, event: EventModel)
    requires
        m.is_sound(),
        m.stage == RunStage::CandidateCheck || m.stage == RunStage::CandidateRender || m.stage
            == RunStage::CandidateRecheck,
    ensures
        m.step(event).findings_are_sound(),
{
    let after = m.step(event);
    let done = m.candidates.take(m.done() as int);
    let next = after.candidates.take(after.done() as int);
    if after.index == m.index + 1 {
        let url = m.candidates[m.index as int];
        assert(next =~= done.push(url));
        assert(next[m.index as int] == url);
        assert forall|i: int| 0 <= i < m.validated.len() implies next.contains(
            (#[trigger] m.validated[i]).candidate,
        ) by {
            let k = choose|k: int|
                0 <= k < done.len() && done[k] == m.validated[i].candidate;
            assert(next[k] == m.validated[i].candidate);
        }
        if after.validated.len() > m.validated.len() {
            let keys = discovery::host_keys(found_candidates(after.validated));
            let known = discovery::host_keys(found_candidates(m.validated));
            let sites = discovery::host_keys(m.candidates);
            assert(keys =~= known.push(weburl::host_key(url)));
            assert forall|i: int, j: int| 0 <= i < j < keys.len() implies #[trigger] keys[i]
                != #[trigger] keys[j] by {
                assert(known[i] == keys[i]);
                if j == known.len() {
                    let k = choose|k: int|
                        0 <= k < done.len() && done[k] == m.validated[i].candidate;
                    assert(sites[k] == known[i]);
                    assert(sites[m.index as int] == weburl::host_key(url));
                } else {
                    assert(known[j] == keys[j]);
                }
            }
            if let EventModel::Looked(lookup) = event {
                assert(browser::policy_outcome(m.allow_local, m.document->0.url, lookup) is Ok);
            }
        }
    }
}

/// Every event keeps a run sound: at most as many candidates as allowed, each of
/// another site, at most as many sources and cache entries as allowed; the usable
/// candidates are among those, permitted and of different sites; and no failure
/// tells credentials, a query or a fragment.
pub proof fn steps_stay_sound(m: RunModel, event: EventModel)
    requires
        m.is_sound(),
    ensures
        m.step(event).is_sound(),
{
    let after = m.step(event);
    assert forall|stage: FailureStage, url: weburl::UrlModel, reason: FailureReason|
        tells_nothing_private(#[trigger] m.failed(stage, url, reason).failures) by {
        failures_stay_sound(m, stage, url, reason);
    }
    match (m.stage, event) {
        (RunStage::SourceRecheck, EventModel::Looked(lookup)) => {
            let room = (m.limit - m.candidates.len()) as nat;
            discovery::extraction_is_bounded(m.document->0, room);
            candidates_stay_sound(
                m.candidates,
                discovery::extracted(m.document->0, room),
                m.limit,
            );
        },
        (RunStage::CandidateCheck, _) | (RunStage::CandidateRender, _)
        | (RunStage::CandidateRecheck, _) => {
            let url = m.candidates[m.index as int];
            health::failure_stays_bounded(m.cache, url, m.now);
            health::success_is_recorded(m.cache, url, m.now);
            findings_stay_sound(m, event);
            if let EventModel::Looked(lookup) = event {
                if m.permits(url, lookup) {
                    assert(may_be_opened(m.allow_local, url));
                }
            }
        },
        _ => {},
    }
}

/// What a run ends with: at most as many usable candidates as allowed, no two of
/// one site, each permitted at its own address and at the one where its page
/// ended. There is none only if every candidate failed.
pub proof fn findings_are_permitted(m: RunModel)
    requires
        m.is_sound(),
        m.stage == RunStage::Complete,
    ensures
        m.validated.len() <= m.limit <= HARD_MAX_CANDIDATES,
        discovery::all_distinct(discovery::host_keys(found_candidates(m.validated))),
        discovery::all_candidates(found_candidates(m.validated)),
        forall|i: int|
            0 <= i < m.validated.len() ==> may_be_opened(
                m.allow_local,
                (#[trigger] m.validated[i]).candidate,
            ) && may_be_opened(m.allow_local, m.validated[i].rendered_url),
        m.validated.len() == 0 ==> m.failures.len() >= m.candidates.len(),
        tells_nothing_private(m.failures),
{
    let list = found_candidates(m.validated);
    assert forall|i: int| 0 <= i < list.len() implies discovery::is_candidate(#[trigger] list[i]) by {
        let done = m.candidates.take(m.done() as int);
        assert(done.contains(m.validated[i].candidate));
        let k = choose|k: int| 0 <= k < done.len() && done[k] == m.validated[i].candidate;
        assert(discovery::is_candidate(m.candidates[k]));
    }
}

/// A page is rendered only after the policy permitted its address.
pub proof fn rendering_follows_permission(m: RunModel, event: EventModel)
    requires
        m.is_sound(),
        m.stage != m.step(event).stage || m.index != m.step(event).index,
    ensures
        action_of(m.step(event)) matches ActionModel::Render(url) ==> {
            &&& action_of(m) == ActionModel::Check(url)
            &&& event matches EventModel::Looked(lookup)
            &&& browser::policy_outcome(m.allow_local, url, lookup) is Ok
        },
{
}

/// A candidate is accepted only when the address at which its page ended was
/// permitted and the page has a search form.
pub proof fn acceptance_follows_permission(m: RunModel, event: EventModel)
    requires
        m.is_sound(),
    ensures
        m.step(event).validated == m.validated || {
            &&& m.stage == RunStage::CandidateRecheck
            &&& event matches EventModel::Looked(lookup)
            &&& browser::policy_outcome(m.allow_local, m.document->0.url, lookup) is Ok
            &&& discovery::page_outcome(m.document->0) is Ok
            &&& m.step(event).validated.drop_last() == m.validated
            &&& m.step(event).validated.last().candidate == m.candidates[m.index as int]
            &&& m.step(event).validated.last().rendered_url == m.document->0.url
        },
{
    let after = m.step(event);
    if after.validated != m.validated {
        assert(after.validated.drop_last() =~= m.validated);
    }
}

/// How much of a run is left, at most.
pub open spec fn remaining(m: RunModel) -> nat {
    match m.stage {
        RunStage::SourceCheck => 3 * (m.limit + (m.sources.len() - m.index) as nat),
        RunStage::SourceRender => (3 * (m.limit + (m.sources.len() - m.index) as nat) - 1) as nat,
        RunStage::SourceRecheck => (3 * (m.limit + (m.sources.len() - m.index) as nat) - 2) as nat,
        RunStage::CandidateCheck => 3 * ((m.candidates.len() - m.index) as nat),
        RunStage::CandidateRender => (3 * ((m.candidates.len() - m.index) as nat) - 1) as nat,
        RunStage::CandidateRecheck => (3 * ((m.candidates.len() - m.index) as nat) - 2) as nat,
        RunStage::Complete => 0,
    }
}

/// Whether an event is the one that the run waits for.
pub open spec fn is_awaited(m: RunModel, event: EventModel) -> bool {
    match action_of(m) {
        ActionModel::Check(_) => event is Looked,
        ActionModel::Render(_) => event is Rendered,
        ActionModel::Finished => false,
    }
}

/// Every awaited event brings the end nearer, so a run ends after at most three
/// events for each source and each candidate; any other event changes nothing.
pub proof fn runs_come_to_an_end(m: RunModel, event: EventModel)
    requires
        m.is_sound(),
    ensures
        is_awaited(m, event) ==> remaining(m.step(event)) < remaining(m),
        !is_awaited(m, event) ==> m.step(event) == m,
        remaining(m) <= 3 * (HARD_MAX_CANDIDATES + HARD_MAX_SOURCE_PAGES),
{
    steps_stay_sound(m, event);
}

/// No candidate is passed over in silence: one that is done with was accepted and
/// recorded as working, or has one more failure and is recorded as failing.
pub proof fn candidates_are_accounted_for(m: RunModel, event: EventModel)
    requires
        m.is_sound(),
        m.stage == RunStage::CandidateCheck || m.stage == RunStage::CandidateRender || m.stage
            == RunStage::CandidateRecheck,
    ensures
        ({
            let after = m.step(event);
            let url = m.candidates[m.index as int];
            &&& after.candidates == m.candidates
            &&& if after.index == m.index {
                after.validated == m.validated && after.failures == m.failures && after.cache
                    == m.cache
            } else {
                &&& after.index == m.index + 1
                &&& {
                    ||| after.validated.len() == m.validated.len() + 1 && after.failures
                        == m.failures && after.cache == health::after_success(m.cache, url, m.now)
                    ||| after.validated == m.validated && after.failures.len() == m.failures.len()
                        + 1 && after.cache == health::after_failure(m.cache, url, m.now)
                }
            }
        }),
{
}

proof fn candidate_is_appended(list: Seq<weburl::UrlModel>, url: weburl::UrlModel, limit: nat)
    ensures
        list.is_prefix_of(with_candidate(list, url, limit)),
{
}

proof fn candidates_are_appended(
    list: Seq<weburl::UrlModel>,
    urls: Seq<weburl::UrlModel>,
    limit: nat,
)
    ensures
        list.is_prefix_of(with_candidates(list, urls, limit)),
    decreases urls.len(),
{
    if urls.len() > 0 {
        candidates_are_appended(list, urls.drop_last(), limit);
        candidate_is_appended(with_candidates(list, urls.drop_last(), limit), urls.last(), limit);
    }
}

proof fn seeds_are_appended(list: Seq<weburl::UrlModel>, seeds: Seq<weburl::UrlModel>, limit: nat)
    ensures
        list.is_prefix_of(with_seeds(list, seeds, limit)),
    decreases seeds.len(),
{
    if seeds.len() > 0 {
        seeds_are_appended(list, seeds.drop_last(), limit);
        if let Some(url) = discovery::normalized(seeds.last()) {
            candidate_is_appended(with_seeds(list, seeds.drop_last(), limit), url, limit);
        }
    }
}

/// What worked lately is tried first: the candidates of a run begin with the
/// fresh ones of the cache, in their order, and whatever is found later comes
/// behind those that are there.
pub proof fn fresh_candidates_come_first(
    allow_local: bool,
    now: u64,
    cache: Seq<health::EntryModel>,
    settings: DiscoveryConfig,
    m: RunModel,
    event: EventModel,
)
    ensures
        with_candidates(
            Seq::empty(),
            health::fresh_candidates(
                cache,
                now,
                settings.cache_ttl_seconds,
                lesser(settings.max_candidates@, HARD_MAX_CANDIDATES as nat) as int,
            ),
            lesser(settings.max_candidates@, HARD_MAX_CANDIDATES as nat),
        ).is_prefix_of(started(allow_local, now, cache, settings).candidates),
        m.candidates.is_prefix_of(m.step(event).candidates),
{
    let limit = lesser(settings.max_candidates@, HARD_MAX_CANDIDATES as nat);
    let cached = health::fresh_candidates(cache, now, settings.cache_ttl_seconds, limit as int);
    seeds_are_appended(
        with_candidates(Seq::empty(), cached, limit),
        weburl::url_views(settings.seed_candidates@),
        limit,
    );
    if m.stage == RunStage::SourceRecheck {
        candidates_are_appended(
            m.candidates,
            discovery::extracted(m.document->0, (m.limit - m.candidates.len()) as nat),
            m.limit,
        );
    }
}

} // verus!
