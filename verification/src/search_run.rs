//! One search: which candidate to open, when to send the query, how long to
//! wait for results, and what each outcome changes.

use crate::browser;
use crate::browser::{check_query, BrowserError, RenderedDocument};
use crate::discovery;
use crate::discovery::{validate_candidate_page, CandidateUrl, SearchForm};
use crate::discovery_run;
use crate::discovery_run::ValidatedCandidate;
use crate::model;
use crate::model::TorrentResult;
use crate::search;
use crate::search::{parse_rendered_results, recognize_result_state, ResultState};
use crate::text::same_text;
use crate::weburl;
use crate::weburl::Url;
use vstd::prelude::*;

verus! {

/// How long the search pauses between two looks at a page, in nanoseconds.
pub const DEFAULT_POLL_INTERVAL: u128 = 75_000_000;

// ------------------------------------------------------------------- failures

/// Where a candidate failed.
#[derive(Debug, Clone, Copy, PartialEq, Eq, Structural)]
pub enum SearchFailureStage {
    CandidateOpen,
    FormValidation,
    FormSubmission,
    ResultWait,
    ResultParsing,
}

/// What each stage is called.
pub open spec fn stage_text(stage: SearchFailureStage) -> Seq<char> {
    match stage {
        SearchFailureStage::CandidateOpen => "candidate open"@,
        SearchFailureStage::FormValidation => "form validation"@,
        SearchFailureStage::FormSubmission => "form submission"@,
        SearchFailureStage::ResultWait => "result wait"@,
        SearchFailureStage::ResultParsing => "result parsing"@,
    }
}

impl SearchFailureStage {
    /// The name of the stage.
    pub fn label(&self) -> (r: &'static str)
        ensures
            r@ == stage_text(*self),
    {
        match self {
            SearchFailureStage::CandidateOpen => "candidate open",
            SearchFailureStage::FormValidation => "form validation",
            SearchFailureStage::FormSubmission => "form submission",
            SearchFailureStage::ResultWait => "result wait",
            SearchFailureStage::ResultParsing => "result parsing",
        }
    }
}

/// Why a candidate failed.
#[derive(Debug, Clone, Copy, PartialEq, Eq, Structural)]
pub enum SearchFailureReason {
    Timeout,
    BrowserFailure,
    UnsupportedPage,
    MalformedResults,
}

/// What each reason says.
pub open spec fn reason_text(reason: SearchFailureReason) -> Seq<char> {
    match reason {
        SearchFailureReason::Timeout => "operation timed out"@,
        SearchFailureReason::BrowserFailure => "browser operation failed"@,
        SearchFailureReason::UnsupportedPage => "search form was no longer supported"@,
        SearchFailureReason::MalformedResults =>
            "rendered results contained no valid torrent identities"@,
    }
}

impl SearchFailureReason {
    /// The reason in words.
    pub fn label(&self) -> (r: &'static str)
        ensures
            r@ == reason_text(*self),
    {
        match self {
            SearchFailureReason::Timeout => "operation timed out",
            SearchFailureReason::BrowserFailure => "browser operation failed",
            SearchFailureReason::UnsupportedPage => "search form was no longer supported",
            SearchFailureReason::MalformedResults =>
                "rendered results contained no valid torrent identities",
        }
    }
}

/// A failed candidate by its values.
#[verifier::ext_equal]
pub struct SearchFailureModel {
    pub stage: SearchFailureStage,
    pub candidate: Seq<char>,
    pub reason: SearchFailureReason,
}

/// A failed candidate. Its address holds no query.
#[derive(Debug, PartialEq, Eq)]
pub struct SearchFailure {
    pub stage: SearchFailureStage,
    pub candidate: String,
    pub reason: SearchFailureReason,
}

impl View for SearchFailure {
    type V = SearchFailureModel;

    open spec fn view(&self) -> SearchFailureModel {
        SearchFailureModel {
            stage: self.stage,
            candidate: self.candidate@,
            reason: self.reason,
        }
    }
}

/// Failures by their values.
pub open spec fn failure_views(failures: Seq<SearchFailure>) -> Seq<SearchFailureModel> {
    Seq::new(failures.len(), |i: int| failures[i]@)
}

/// A failure in words.
pub open spec fn failure_text(failure: SearchFailureModel) -> Seq<char> {
    stage_text(failure.stage) + " "@ + failure.candidate + ": "@ + reason_text(failure.reason)
}

impl SearchFailure {
    /// The failure in words.
    pub fn message(&self) -> (r: String)
        ensures
            r@ == failure_text(self@),
    {
        let mut out = self.stage.label().to_string();
        out.append(" ");
        out.append(self.candidate.as_str());
        out.append(": ");
        out.append(self.reason.label());
        out
    }
}

/// The failure of the candidate at `url`.
pub open spec fn failure_at(
    stage: SearchFailureStage,
    url: weburl::UrlModel,
    reason: SearchFailureReason,
) -> SearchFailureModel {
    SearchFailureModel { stage, candidate: weburl::address(url.href), reason }
}

/// The failure of the candidate at `url`.
pub fn search_failure(stage: SearchFailureStage, url: &Url, reason: SearchFailureReason) -> (r:
    SearchFailure)
    ensures
        r@ == failure_at(stage, url@, reason),
        !r.candidate@.contains('?'),
        !r.candidate@.contains('#'),
{
    SearchFailure { stage, candidate: url.address(), reason }
}

/// What an error of the browser means for a candidate.
pub open spec fn reason_of(fault: browser::BrowserFault) -> SearchFailureReason {
    match fault {
        browser::BrowserFault::Timeout(_) => SearchFailureReason::Timeout,
        _ => SearchFailureReason::BrowserFailure,
    }
}

/// What an error of the browser means for a candidate.
pub fn browser_reason(error: &BrowserError) -> (r: SearchFailureReason)
    ensures
        r == reason_of(error@),
{
    match error {
        BrowserError::Timeout { .. } => SearchFailureReason::Timeout,
        _ => SearchFailureReason::BrowserFailure,
    }
}

/// Whether a fault only says that the page was changing while it was read.
pub open spec fn is_transient(fault: browser::BrowserFault) -> bool {
    fault matches browser::BrowserFault::Operation(stage, _) && (stage == "URL read"@ || stage
        == "document read"@)
}

fn may_pass(error: &BrowserError) -> (r: bool)
    ensures
        r == is_transient(error@),
{
    match error {
        BrowserError::Operation { stage, .. } => same_text(stage, "URL read") || same_text(
            stage,
            "document read",
        ),
        _ => false,
    }
}

// ------------------------------------------------------------------ the model

/// What a search waits for.
#[derive(Debug, Clone, Copy, PartialEq, Eq, Structural)]
pub enum SearchStage {
    Open,
    Submit,
    Clock,
    Read,
    Sleep,
    Done,
}

/// How reading the current page went.
#[derive(Debug, PartialEq, Eq)]
pub enum PageRead {
    TimedOut,
    Failed(BrowserError),
    Document(RenderedDocument),
}

/// How reading the current page went, by its values.
pub enum ReadModel {
    TimedOut,
    Failed(browser::BrowserFault),
    Document(browser::DocumentModel),
}

impl View for PageRead {
    type V = ReadModel;

    open spec fn view(&self) -> ReadModel {
        match self {
            PageRead::TimedOut => ReadModel::TimedOut,
            PageRead::Failed(error) => ReadModel::Failed(error@),
            PageRead::Document(document) => ReadModel::Document(document@),
        }
    }
}

/// What happened outside. Times are nanoseconds of one clock that never goes
/// back.
#[derive(Debug, PartialEq, Eq)]
pub enum SearchEvent {
    /// The candidate's page was opened, or could not be.
    Opened(Result<RenderedDocument, BrowserError>),
    /// The query was sent, or could not be, at this time.
    Submitted { now: u128, result: Result<(), BrowserError> },
    /// The time.
    Time { now: u128 },
    /// The current page was read at this time.
    Read { now: u128, page: PageRead },
    /// The pause is over.
    Slept,
}

/// An event by its values.
pub enum SearchEventModel {
    Opened(Result<browser::DocumentModel, browser::BrowserFault>),
    Submitted(u128, Result<(), browser::BrowserFault>),
    Time(u128),
    Read(u128, ReadModel),
    Slept,
}

impl View for SearchEvent {
    type V = SearchEventModel;

    open spec fn view(&self) -> SearchEventModel {
        match self {
            SearchEvent::Opened(Ok(document)) => SearchEventModel::Opened(Ok(document@)),
            SearchEvent::Opened(Err(error)) => SearchEventModel::Opened(Err(error@)),
            SearchEvent::Submitted { now, result } => SearchEventModel::Submitted(
                *now,
                match result {
                    Ok(_) => Ok(()),
                    Err(error) => Err(error@),
                },
            ),
            SearchEvent::Time { now } => SearchEventModel::Time(*now),
            SearchEvent::Read { now, page } => SearchEventModel::Read(*now, page@),
            SearchEvent::Slept => SearchEventModel::Slept,
        }
    }
}

/// The state of a search.
#[verifier::ext_equal]
pub struct SearchModel {
    pub candidates: Seq<weburl::UrlModel>,
    pub query: Seq<char>,
    pub result_timeout: nat,
    pub poll_interval: nat,
    pub index: nat,
    pub stage: SearchStage,
    pub form: Option<discovery::FormModel>,
    pub deadline: nat,
    pub span: nat,
    pub failures: Seq<SearchFailureModel>,
    pub results: Option<Seq<model::TorrentModel>>,
}

/// What is left until `deadline`.
pub open spec fn time_left(deadline: nat, now: nat) -> nat {
    if now < deadline {
        (deadline - now) as nat
    } else {
        0
    }
}

/// The latest time that can be told.
pub open spec fn clamp_time(time: nat) -> nat {
    if time > u128::MAX {
        u128::MAX as nat
    } else {
        time
    }
}

/// Whether a failure is about the candidate at `url`, and tells no query and no
/// fragment.
pub open spec fn is_about(failure: SearchFailureModel, url: weburl::UrlModel) -> bool {
    failure.candidate == weburl::address(url.href) && !failure.candidate.contains('?')
        && !failure.candidate.contains('#')
}

impl SearchModel {
    /// The state with the next candidate to open, or none left.
    pub open spec fn at(self, index: nat) -> SearchModel {
        SearchModel {
            index,
            stage: if index < self.candidates.len() {
                SearchStage::Open
            } else {
                SearchStage::Done
            },
            form: None,
            span: 0,
            ..self
        }
    }

    /// The state after the current candidate failed: the next one is tried.
    pub open spec fn failed(
        self,
        stage: SearchFailureStage,
        reason: SearchFailureReason,
    ) -> SearchModel {
        SearchModel {
            failures: self.failures.push(
                failure_at(stage, self.candidates[self.index as int], reason),
            ),
            ..self
        }.at(self.index + 1)
    }

    /// The state in which the search pauses before the next look.
    pub open spec fn pausing(self, now: nat) -> SearchModel {
        SearchModel {
            stage: SearchStage::Sleep,
            span: discovery_run::lesser(self.poll_interval, time_left(self.deadline, now)),
            ..self
        }
    }

    /// The candidate's page was opened: it must still be a search page. A query
    /// that is too long is not sent.
    pub open spec fn opened(
        self,
        result: Result<browser::DocumentModel, browser::BrowserFault>,
    ) -> SearchModel {
        match result {
            Ok(document) => match discovery::page_outcome(document) {
                Ok(form) => if browser::query_fits(self.query) {
                    SearchModel { stage: SearchStage::Submit, form: Some(form), ..self }
                } else {
                    self.failed(
                        SearchFailureStage::FormSubmission,
                        SearchFailureReason::BrowserFailure,
                    )
                },
                Err(_) => self.failed(
                    SearchFailureStage::FormValidation,
                    SearchFailureReason::UnsupportedPage,
                ),
            },
            Err(fault) => self.failed(SearchFailureStage::CandidateOpen, reason_of(fault)),
        }
    }

    /// The query was sent: results are waited for from now on.
    pub open spec fn submitted(self, now: nat, result: Result<(), browser::BrowserFault>) -> SearchModel {
        match result {
            Ok(_) => SearchModel {
                stage: SearchStage::Clock,
                deadline: clamp_time(now + self.result_timeout),
                ..self
            },
            Err(fault) => self.failed(SearchFailureStage::FormSubmission, reason_of(fault)),
        }
    }

    /// The time was told: the page is read while any is left.
    pub open spec fn timed(self, now: nat) -> SearchModel {
        if time_left(self.deadline, now) == 0 {
            self.failed(SearchFailureStage::ResultWait, SearchFailureReason::Timeout)
        } else {
            SearchModel {
                stage: SearchStage::Read,
                span: time_left(self.deadline, now),
                ..self
            }
        }
    }

    /// The page was read.
    pub open spec fn looked(self, now: nat, page: ReadModel) -> SearchModel {
        match page {
            ReadModel::TimedOut => self.failed(
                SearchFailureStage::ResultWait,
                SearchFailureReason::Timeout,
            ),
            ReadModel::Failed(fault) => if is_transient(fault) {
                self.pausing(now)
            } else {
                self.failed(SearchFailureStage::ResultWait, reason_of(fault))
            },
            ReadModel::Document(document) => match search::result_state(document) {
                ResultState::Pending => self.pausing(now),
                ResultState::Empty => SearchModel {
                    stage: SearchStage::Done,
                    results: Some(Seq::empty()),
                    ..self
                },
                ResultState::Rows => if search::page_results(document).len() == 0 {
                    self.failed(
                        SearchFailureStage::ResultParsing,
                        SearchFailureReason::MalformedResults,
                    )
                } else {
                    SearchModel {
                        stage: SearchStage::Done,
                        results: Some(search::page_results(document)),
                        ..self
                    }
                },
            },
        }
    }

    /// What an event changes. One that the search does not wait for changes
    /// nothing.
    pub open spec fn step(self, event: SearchEventModel) -> SearchModel {
        match (self.stage, event) {
            (SearchStage::Open, SearchEventModel::Opened(result)) => self.opened(result),
            (SearchStage::Submit, SearchEventModel::Submitted(now, result)) => self.submitted(
                now as nat,
                result,
            ),
            (SearchStage::Clock, SearchEventModel::Time(now)) => self.timed(now as nat),
            (SearchStage::Read, SearchEventModel::Read(now, page)) => self.looked(now as nat, page),
            (SearchStage::Sleep, SearchEventModel::Slept) => SearchModel {
                stage: SearchStage::Clock,
                ..self
            },
            _ => self,
        }
    }

    /// What holds of every state: while it is not done there is a candidate, and
    /// a form where one is to be sent; results are there only when it is done. Each
    /// candidate that was left has its failure, in order, and a search without
    /// results has left them all.
    pub open spec fn is_sound(self) -> bool {
        &&& self.failures.len() == self.index
        &&& forall|i: int|
            0 <= i < self.failures.len() ==> is_about(#[trigger] self.failures[i], self.candidates[i])
        &&& self.stage == SearchStage::Done && self.results is None ==> self.index
            == self.candidates.len()
        &&& self.stage != SearchStage::Done ==> self.index < self.candidates.len() && self.results
            is None
        &&& self.stage == SearchStage::Submit ==> self.form is Some
        &&& self.results is Some ==> self.index < self.candidates.len()
        &&& self.deadline <= u128::MAX
        &&& self.span <= u128::MAX
    }
}

/// The candidates of validated ones.
pub open spec fn candidate_urls(list: Seq<ValidatedCandidate>) -> Seq<weburl::UrlModel> {
    Seq::new(list.len(), |i: int| list[i].candidate@)
}

/// The state in which a search starts.
pub open spec fn started(
    candidates: Seq<weburl::UrlModel>,
    query: Seq<char>,
    result_timeout: nat,
    poll_interval: nat,
) -> SearchModel {
    SearchModel {
        candidates,
        query,
        result_timeout,
        poll_interval,
        index: 0,
        stage: SearchStage::Done,
        form: None,
        deadline: 0,
        span: 0,
        failures: Seq::empty(),
        results: None,
    }.at(0)
}

// ----------------------------------------------------------------- the search

/// What is to be done outside. Spans are in nanoseconds.
#[derive(Debug, PartialEq, Eq)]
pub enum SearchAction {
    /// Open the page at the address.
    Open(Url),
    /// Send the query with the form.
    Submit { form: SearchForm, query: String },
    /// Tell the time.
    TellTime,
    /// Read the current page, for no longer than this.
    Read { limit: u128 },
    /// Pause for this long.
    Sleep { duration: u128 },
    /// Nothing: the search is over.
    Finished,
}

/// An action by its values.
pub enum SearchActionModel {
    Open(weburl::UrlModel),
    Submit(discovery::FormModel, Seq<char>),
    TellTime,
    Read(nat),
    Sleep(nat),
    Finished,
}

impl View for SearchAction {
    type V = SearchActionModel;

    open spec fn view(&self) -> SearchActionModel {
        match self {
            SearchAction::Open(url) => SearchActionModel::Open(url@),
            SearchAction::Submit { form, query } => SearchActionModel::Submit(form@, query@),
            SearchAction::TellTime => SearchActionModel::TellTime,
            SearchAction::Read { limit } => SearchActionModel::Read(*limit as nat),
            SearchAction::Sleep { duration } => SearchActionModel::Sleep(*duration as nat),
            SearchAction::Finished => SearchActionModel::Finished,
        }
    }
}

/// What a state asks for.
pub open spec fn action_of(m: SearchModel) -> SearchActionModel {
    match m.stage {
        SearchStage::Open => SearchActionModel::Open(m.candidates[m.index as int]),
        SearchStage::Submit => SearchActionModel::Submit(m.form->0, m.query),
        SearchStage::Clock => SearchActionModel::TellTime,
        SearchStage::Read => SearchActionModel::Read(m.span),
        SearchStage::Sleep => SearchActionModel::Sleep(m.span),
        SearchStage::Done => SearchActionModel::Finished,
    }
}

/// A search over candidates.
#[derive(Debug, PartialEq, Eq)]
pub struct SearchRun {
    candidates: Vec<CandidateUrl>,
    query: String,
    result_timeout: u128,
    poll_interval: u128,
    index: usize,
    stage: SearchStage,
    form: Option<SearchForm>,
    deadline: u128,
    span: u128,
    failures: Vec<SearchFailure>,
    results: Option<Vec<TorrentResult>>,
}

impl View for SearchRun {
    type V = SearchModel;

    closed spec fn view(&self) -> SearchModel {
        SearchModel {
            candidates: discovery::candidate_views(self.candidates@),
            query: self.query@,
            result_timeout: self.result_timeout as nat,
            poll_interval: self.poll_interval as nat,
            index: self.index as nat,
            stage: self.stage,
            form: match self.form {
                Some(form) => Some(form@),
                None => None,
            },
            deadline: self.deadline as nat,
            span: self.span as nat,
            failures: failure_views(self.failures@),
            results: match self.results {
                Some(results) => Some(model::result_views(results@)),
                None => None,
            },
        }
    }
}

/// What a search found.
#[derive(Debug, PartialEq, Eq)]
pub struct SearchOutcome {
    pub candidate: CandidateUrl,
    pub results: Vec<TorrentResult>,
    pub failures: Vec<SearchFailure>,
}

/// The failure of a search: all candidates failed.
#[derive(Debug, PartialEq, Eq)]
pub struct SearchError {
    pub failures: Vec<SearchFailure>,
}

impl SearchError {
    /// The error in words.
    pub fn message(&self) -> (r: String)
        ensures
            r@ == "all validated proxy candidates failed during rendered search"@,
    {
        "all validated proxy candidates failed during rendered search".to_string()
    }
}

impl SearchRun {
    /// What the search asks for.
    pub fn action(&self) -> (r: SearchAction)
        requires
            self@.is_sound(),
        ensures
            r@ == action_of(self@),
    {
        match self.stage {
            SearchStage::Open => SearchAction::Open(self.candidates[self.index].as_url().clone()),
            SearchStage::Submit => match &self.form {
                Some(form) => SearchAction::Submit {
                    form: form.clone(),
                    query: self.query.clone(),
                },
                None => SearchAction::Finished,
            },
            SearchStage::Clock => SearchAction::TellTime,
            SearchStage::Read => SearchAction::Read { limit: self.span },
            SearchStage::Sleep => SearchAction::Sleep { duration: self.span },
            SearchStage::Done => SearchAction::Finished,
        }
    }

    fn go_to(&mut self, index: usize)
        ensures
            final(self)@ == old(self)@.at(index as nat),
    {
        self.stage = if index < self.candidates.len() {
            SearchStage::Open
        } else {
            SearchStage::Done
        };
        self.index = index;
        self.form = None;
        self.span = 0;
        proof {
            assert(self@ =~= old(self)@.at(index as nat));
        }
    }

    fn fail(&mut self, stage: SearchFailureStage, reason: SearchFailureReason)
        requires
            old(self)@.index < old(self)@.candidates.len(),
        ensures
            final(self)@ == old(self)@.failed(stage, reason),
    {
        let size = self.candidates.len();
        proof {
            assert(self.index < size);
        }
        let next = self.index + 1;
        let noted = search_failure(stage, self.candidates[self.index].as_url(), reason);
        let ghost before = failure_views(self.failures@);
        self.failures.push(noted);
        proof {
            assert(failure_views(self.failures@) =~= before.push(noted@));
        }
        self.go_to(next);
        proof {
            assert(self@ =~= old(self)@.failed(stage, reason));
        }
    }

    fn pause(&mut self, now: u128)
        ensures
            final(self)@ == old(self)@.pausing(now as nat),
    {
        let left = if now < self.deadline {
            self.deadline - now
        } else {
            0
        };
        self.span = if self.poll_interval < left {
            self.poll_interval
        } else {
            left
        };
        self.stage = SearchStage::Sleep;
        proof {
            assert(self@ =~= old(self)@.pausing(now as nat));
        }
    }

    fn on_opened(&mut self, result: Result<RenderedDocument, BrowserError>)
        requires
            old(self)@.is_sound(),
            old(self)@.stage == SearchStage::Open,
        ensures
            final(self)@ == old(self)@.step(SearchEvent::Opened(result)@),
    {
        match result {
            Ok(document) => match validate_candidate_page(&document) {
                Ok(form) => {
                    if check_query(self.query.as_str()).is_ok() {
                        self.form = Some(form);
                        self.stage = SearchStage::Submit;
                        proof {
                            assert(self@ =~= old(self)@.step(SearchEvent::Opened(result)@));
                        }
                    } else {
                        self.fail(
                            SearchFailureStage::FormSubmission,
                            SearchFailureReason::BrowserFailure,
                        );
                    }
                },
                Err(_) => self.fail(
                    SearchFailureStage::FormValidation,
                    SearchFailureReason::UnsupportedPage,
                ),
            },
            Err(error) => {
                let reason = browser_reason(&error);
                self.fail(SearchFailureStage::CandidateOpen, reason);
            },
        }
    }

    fn on_submitted(&mut self, now: u128, result: Result<(), BrowserError>)
        requires
            old(self)@.is_sound(),
            old(self)@.stage == SearchStage::Submit,
        ensures
            final(self)@ == old(self)@.step(SearchEvent::Submitted { now, result }@),
    {
        match result {
            Ok(_) => {
                self.deadline = if now > u128::MAX - self.result_timeout {
                    u128::MAX
                } else {
                    now + self.result_timeout
                };
                self.stage = SearchStage::Clock;
                proof {
                    assert(self@ =~= old(self)@.step(SearchEvent::Submitted { now, result }@));
                }
            },
            Err(error) => {
                let reason = browser_reason(&error);
                self.fail(SearchFailureStage::FormSubmission, reason);
            },
        }
    }

    fn on_time(&mut self, now: u128)
        requires
            old(self)@.is_sound(),
            old(self)@.stage == SearchStage::Clock,
        ensures
            final(self)@ == old(self)@.timed(now as nat),
    {
        if now < self.deadline {
            self.span = self.deadline - now;
            self.stage = SearchStage::Read;
            proof {
                assert(self@ =~= old(self)@.timed(now as nat));
            }
        } else {
            self.fail(SearchFailureStage::ResultWait, SearchFailureReason::Timeout);
        }
    }

    fn on_read(&mut self, now: u128, page: PageRead)
        requires
            old(self)@.is_sound(),
            old(self)@.stage == SearchStage::Read,
        ensures
            final(self)@ == old(self)@.looked(now as nat, page@),
    {
        match page {
            PageRead::TimedOut => self.fail(
                SearchFailureStage::ResultWait,
                SearchFailureReason::Timeout,
            ),
            PageRead::Failed(error) => if may_pass(&error) {
                self.pause(now);
            } else {
                let reason = browser_reason(&error);
                self.fail(SearchFailureStage::ResultWait, reason);
            },
            PageRead::Document(document) => match recognize_result_state(&document) {
                ResultState::Pending => self.pause(now),
                ResultState::Empty => {
                    let none: Vec<TorrentResult> = Vec::new();
                    proof {
                        assert(model::result_views(none@) =~= Seq::empty());
                    }
                    self.results = Some(none);
                    self.stage = SearchStage::Done;
                    proof {
                        assert(self@ =~= old(self)@.looked(now as nat, page@));
                    }
                },
                ResultState::Rows => {
                    let results = parse_rendered_results(&document);
                    if results.len() == 0 {
                        self.fail(
                            SearchFailureStage::ResultParsing,
                            SearchFailureReason::MalformedResults,
                        );
                    } else {
                        self.results = Some(results);
                        self.stage = SearchStage::Done;
                        proof {
                            assert(self@ =~= old(self)@.looked(now as nat, page@));
                        }
                    }
                },
            },
        }
    }

    /// Takes in what happened.
    pub fn handle(&mut self, event: SearchEvent)
        requires
            old(self)@.is_sound(),
        ensures
            final(self)@ == old(self)@.step(event@),
            final(self)@.is_sound(),
    {
        proof {
            steps_stay_sound(self@, event@);
        }
        match event {
            SearchEvent::Opened(result) => if self.stage == SearchStage::Open {
                self.on_opened(result);
            },
            SearchEvent::Submitted { now, result } => if self.stage == SearchStage::Submit {
                self.on_submitted(now, result);
            },
            SearchEvent::Time { now } => if self.stage == SearchStage::Clock {
                self.on_time(now);
            },
            SearchEvent::Read { now, page } => if self.stage == SearchStage::Read {
                self.on_read(now, page);
            },
            SearchEvent::Slept => if self.stage == SearchStage::Sleep {
                self.stage = SearchStage::Clock;
                proof {
                    assert(self@ =~= old(self)@.step(event@));
                }
            },
        }
    }

    /// What the search found.
    pub fn finish(self) -> (r: Result<SearchOutcome, SearchError>)
        requires
            self@.is_sound(),
        ensures
            match r {
                Ok(outcome) => self@.results == Some(model::result_views(outcome.results@))
                    && outcome.candidate@ == self@.candidates[self@.index as int] && failure_views(
                    outcome.failures@,
                ) == self@.failures,
                Err(error) => self@.results is None && failure_views(error.failures@)
                    == self@.failures,
            },
    {
        match self.results {
            Some(results) => {
                let candidate = self.candidates[self.index].clone();
                Ok(SearchOutcome { candidate, results, failures: self.failures })
            },
            None => Err(SearchError { failures: self.failures }),
        }
    }
}

/// What searches run with: how long results are waited for, and how long the
/// pauses between two looks are, in nanoseconds.
#[derive(Debug, Clone, Copy, PartialEq, Eq)]
pub struct SearchEngine {
    result_timeout: u128,
    poll_interval: u128,
}

impl SearchEngine {
    /// How long results are waited for.
    pub closed spec fn timeout(&self) -> nat {
        self.result_timeout as nat
    }

    /// How long the pauses are.
    pub closed spec fn interval(&self) -> nat {
        self.poll_interval as nat
    }

    /// An engine with the default pauses.
    pub fn new(result_timeout: u128) -> (r: SearchEngine)
        ensures
            r.timeout() == result_timeout,
            r.interval() == DEFAULT_POLL_INTERVAL,
    {
        SearchEngine { result_timeout, poll_interval: DEFAULT_POLL_INTERVAL }
    }

    /// An engine with pauses of its own.
    pub fn with_poll_interval(result_timeout: u128, poll_interval: u128) -> (r: SearchEngine)
        ensures
            r.timeout() == result_timeout,
            r.interval() == poll_interval,
    {
        SearchEngine { result_timeout, poll_interval }
    }

    /// Starts a search over the candidates, in order.
    pub fn search_candidates(&self, candidates: &Vec<ValidatedCandidate>, query: &str) -> (r:
        SearchRun)
        ensures
            r@ == started(candidate_urls(candidates@), query@, self.timeout(), self.interval()),
            r@.is_sound(),
    {
        let ghost all = candidate_urls(candidates@);
        let mut list: Vec<CandidateUrl> = Vec::new();
        let mut i: usize = 0;
        proof {
            assert(discovery::candidate_views(list@) =~= all.take(0));
        }
        while i < candidates.len()
            invariant
                i <= candidates@.len(),
                all == candidate_urls(candidates@),
                discovery::candidate_views(list@) == all.take(i as int),
            decreases candidates@.len() - i,
        {
            let ghost before = discovery::candidate_views(list@);
            let candidate = candidates[i].candidate.clone();
            list.push(candidate);
            proof {
                assert(discovery::candidate_views(list@) =~= before.push(candidate@));
                assert(all.take(i as int + 1) =~= all.take(i as int).push(all[i as int]));
            }
            i = i + 1;
        }
        let mut run = SearchRun {
            candidates: list,
            query: query.to_string(),
            result_timeout: self.result_timeout,
            poll_interval: self.poll_interval,
            index: 0,
            stage: SearchStage::Done,
            form: None,
            deadline: 0,
            span: 0,
            failures: Vec::new(),
            results: None,
        };
        proof {
            assert(all.take(all.len() as int) =~= all);
            assert(failure_views(run.failures@) =~= Seq::empty());
        }
        run.go_to(0);
        proof {
            assert(run@ =~= started(all, query@, self.timeout(), self.interval()));
        }
        run
    }
}

// ----------------------------------------------------------------------- laws

/// Every event keeps a search sound.
pub proof fn steps_stay_sound(m: SearchModel, event: SearchEventModel)
    requires
        m.is_sound(),
    ensures
        m.step(event).is_sound(),
{
    if m.index < m.candidates.len() {
        weburl::reads_as_public(m.candidates[m.index as int].href);
    }
}

/// A search that fails has tried every candidate: there is one failure for each,
/// in order.
pub proof fn failed_searches_tried_all(m: SearchModel)
    requires
        m.is_sound(),
        m.stage == SearchStage::Done,
        m.results is None,
    ensures
        m.failures.len() == m.candidates.len(),
        forall|i: int|
            0 <= i < m.candidates.len() ==> is_about(#[trigger] m.failures[i], m.candidates[i]),
{
}

/// A candidate that fails is left for the next one, with one failure noted, and
/// without results; candidates are never gone back to.
pub proof fn failing_moves_on(m: SearchModel, event: SearchEventModel)
    requires
        m.is_sound(),
    ensures
        m.step(event).index >= m.index,
        m.step(event).index > m.index ==> {
            &&& m.step(event).index == m.index + 1
            &&& m.step(event).failures.len() == m.failures.len() + 1
            &&& m.step(event).results is None
            &&& m.step(event).stage == SearchStage::Open || m.step(event).stage
                == SearchStage::Done && m.step(event).index == m.candidates.len()
        },
        m.step(event).index == m.index ==> m.step(event).failures == m.failures,
{
}

/// The query is sent as it was given, within its limits, and only with a form
/// that the page which was just opened was accepted for.
pub proof fn submission_follows_validation(m: SearchModel, event: SearchEventModel)
    requires
        m.is_sound(),
        m.stage != SearchStage::Submit,
    ensures
        action_of(m.step(event)) matches SearchActionModel::Submit(form, query) ==> {
            &&& query == m.query
            &&& browser::query_fits(query)
            &&& event matches SearchEventModel::Opened(Ok(document))
            &&& discovery::page_outcome(document) == Ok::<
                discovery::FormModel,
                discovery::FailureReason,
            >(form)
        },
{
}

/// Waiting is bounded: a page is read no longer than until the deadline, a pause
/// is no longer than the interval and than what is left, and no page is read
/// once the deadline has passed.
pub proof fn waiting_is_bounded(m: SearchModel, event: SearchEventModel)
    requires
        m.is_sound(),
    ensures
        event matches SearchEventModel::Time(now) ==> m.stage == SearchStage::Clock ==> {
            if now < m.deadline {
                action_of(m.step(event)) == SearchActionModel::Read((m.deadline - now) as nat)
            } else {
                m.step(event).index == m.index + 1
            }
        },
        event matches SearchEventModel::Read(now, _) ==> m.stage == SearchStage::Read ==> (
        action_of(m.step(event)) matches SearchActionModel::Sleep(duration) ==> duration
            <= m.poll_interval && duration <= time_left(m.deadline, now as nat)),
{
}

/// A search that ends with results has some for the candidate it ended at, or
/// that page said that there are none.
pub proof fn results_come_from_a_page(m: SearchModel, event: SearchEventModel)
    requires
        m.is_sound(),
        m.results is None,
    ensures
        m.step(event).results matches Some(results) ==> {
            &&& event matches SearchEventModel::Read(_, ReadModel::Document(document))
            &&& m.step(event).stage == SearchStage::Done
            &&& m.step(event).index == m.index
            &&& if results.len() == 0 {
                search::result_state(document) == ResultState::Empty
            } else {
                results == search::page_results(document)
            }
        },
{
}

} // verus!
