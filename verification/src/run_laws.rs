//! Laws of runs: what each outcome outside leads to, in a search, in discovery and
//! in the whole program.

use crate::app::WorkflowFault;
use crate::app_run::{WorkflowEvent, WorkflowModel, WorkflowStage};
use crate::browser;
use crate::browser::{BrowserFault, Lookup};
use crate::config::DiscoveryConfig;
use crate::discovery;
use crate::discovery::{FailureReason, FailureStage};
use crate::discovery_laws;
use crate::discovery_run;
use crate::discovery_run::{RunModel, RunStage};
use crate::health;
use crate::model;
use crate::row_laws;
use crate::search;
use crate::search_laws;
use crate::search_run;
use crate::search_run::{
    ReadModel, SearchActionModel, SearchEventModel, SearchFailureReason, SearchFailureStage,
    SearchModel, SearchStage,
};
use crate::selection::{PromptAnswer, SelectionError};
use crate::weburl;
use vstd::prelude::*;

verus! {

// ---------------------------------------------------------------------- search

/// The current candidate is given up: one failure is noted for it, and the next
/// candidate is opened, or the search is over without results.
pub open spec fn gives_up(
    m: SearchModel,
    after: SearchModel,
    stage: SearchFailureStage,
    reason: SearchFailureReason,
) -> bool {
    &&& after.failures.len() == m.failures.len() + 1
    &&& after.failures.drop_last() == m.failures
    &&& after.failures.last().stage == stage
    &&& after.failures.last().reason == reason
    &&& after.failures.last().candidate == weburl::address(m.candidates[m.index as int].href)
    &&& after.candidates == m.candidates
    &&& after.query == m.query
    &&& after.index == m.index + 1
    &&& after.results == m.results
    &&& if m.index + 1 < m.candidates.len() {
        search_run::action_of(after) == SearchActionModel::Open(
            m.candidates[m.index as int + 1],
        )
    } else {
        search_run::action_of(after) == SearchActionModel::Finished
    }
}

/// The search is over with results, and nothing else has changed.
pub open spec fn ends_with(
    m: SearchModel,
    after: SearchModel,
    results: Seq<model::TorrentModel>,
) -> bool {
    &&& after.results == Some(results)
    &&& after.failures == m.failures
    &&& after.candidates == m.candidates
    &&& after.index == m.index
    &&& search_run::action_of(after) == SearchActionModel::Finished
}

/// The candidate stays, nothing is noted, and there are no results yet.
pub open spec fn stays(m: SearchModel, after: SearchModel) -> bool {
    &&& after.results == m.results
    &&& after.failures == m.failures
    &&& after.candidates == m.candidates
    &&& after.index == m.index
    &&& after.query == m.query
    &&& after.deadline == m.deadline
}

/// A page that says that nothing was found ends the search without results and
/// without a failure, whatever rows it shows.
pub proof fn nothing_found_is_an_answer(
    m: SearchModel,
    now: u128,
    document: browser::DocumentModel,
)
    requires
        m.is_sound(),
        m.stage == SearchStage::Read,
        search_laws::says_nothing_found(document.html),
    ensures
        ends_with(
            m,
            m.step(SearchEventModel::Read(now, ReadModel::Document(document))),
            Seq::empty(),
        ),
{
    search_laws::pages_are_told_apart(document);
}

/// A page that shows results and does not say that there are none ends the search
/// with its results, if it has any; if none of its rows is one, the candidate is
/// given up as malformed.
pub proof fn shown_results_are_taken(
    m: SearchModel,
    now: u128,
    document: browser::DocumentModel,
)
    requires
        m.is_sound(),
        m.stage == SearchStage::Read,
        !search_laws::says_nothing_found(document.html),
        search_laws::shows_results(document.html),
    ensures
        ({
            let after = m.step(SearchEventModel::Read(now, ReadModel::Document(document)));
            &&& search::page_results(document).len() > 0 ==> ends_with(
                m,
                after,
                search::page_results(document),
            )
            &&& search::page_results(document).len() == 0 ==> gives_up(
                m,
                after,
                SearchFailureStage::ResultParsing,
                SearchFailureReason::MalformedResults,
            )
        }),
{
    search_laws::pages_are_told_apart(document);
    let after = m.step(SearchEventModel::Read(now, ReadModel::Document(document)));
    assert(after.failures.len() > m.failures.len() ==> after.failures.drop_last() =~= m.failures);
}

/// The pause before the next look: as long as the interval, but no longer than
/// until the deadline.
pub open spec fn pauses(m: SearchModel, after: SearchModel, now: nat) -> bool {
    &&& stays(m, after)
    &&& search_run::action_of(after) == SearchActionModel::Sleep(
        if now >= m.deadline {
            0
        } else if m.deadline - now < m.poll_interval {
            (m.deadline - now) as nat
        } else {
            m.poll_interval
        },
    )
}

/// A page that neither says that nothing was found nor shows results is looked at
/// again after a pause; so is one that was changing while it was read.
pub proof fn pending_pages_are_waited_for(m: SearchModel, now: u128, page: ReadModel)
    requires
        m.is_sound(),
        m.stage == SearchStage::Read,
        match page {
            ReadModel::Document(document) => !search_laws::says_nothing_found(document.html)
                && !search_laws::shows_results(document.html),
            ReadModel::Failed(BrowserFault::Operation(stage, _)) => stage == "URL read"@ || stage
                == "document read"@,
            _ => false,
        },
    ensures
        pauses(m, m.step(SearchEventModel::Read(now, page)), now as nat),
{
    if let ReadModel::Document(document) = page {
        search_laws::pages_are_told_apart(document);
    }
}

/// A page that cannot be read in time, or not at all, costs the candidate.
pub proof fn unreadable_pages_are_given_up(m: SearchModel, now: u128, page: ReadModel)
    requires
        m.is_sound(),
        m.stage == SearchStage::Read,
    ensures
        ({
            let after = m.step(SearchEventModel::Read(now, page));
            match page {
                ReadModel::TimedOut => gives_up(
                    m,
                    after,
                    SearchFailureStage::ResultWait,
                    SearchFailureReason::Timeout,
                ),
                ReadModel::Failed(BrowserFault::Timeout(_)) => gives_up(
                    m,
                    after,
                    SearchFailureStage::ResultWait,
                    SearchFailureReason::Timeout,
                ),
                ReadModel::Failed(BrowserFault::Operation(stage, _)) => stage == "URL read"@
                    || stage == "document read"@ || gives_up(
                    m,
                    after,
                    SearchFailureStage::ResultWait,
                    SearchFailureReason::BrowserFailure,
                ),
                ReadModel::Failed(_) => gives_up(
                    m,
                    after,
                    SearchFailureStage::ResultWait,
                    SearchFailureReason::BrowserFailure,
                ),
                ReadModel::Document(_) => true,
            }
        }),
{
    let after = m.step(SearchEventModel::Read(now, page));
    assert(after.failures.len() > m.failures.len() ==> after.failures.drop_last() =~= m.failures);
}

/// What opening a candidate leads to: where it cannot be opened or is no search
/// page any more it is given up; a query of more than 512 characters or 2048 bytes
/// is not sent; any other is sent with the form of the page.
pub proof fn opened_pages_are_searched(
    m: SearchModel,
    result: Result<browser::DocumentModel, BrowserFault>,
)
    requires
        m.is_sound(),
        m.stage == SearchStage::Open,
    ensures
        ({
            let after = m.step(SearchEventModel::Opened(result));
            let fits = m.query.len() <= 512 && vstd::utf8::encode_utf8(m.query).len() <= 2048;
            match result {
                Err(BrowserFault::Timeout(_)) => gives_up(
                    m,
                    after,
                    SearchFailureStage::CandidateOpen,
                    SearchFailureReason::Timeout,
                ),
                Err(_) => gives_up(
                    m,
                    after,
                    SearchFailureStage::CandidateOpen,
                    SearchFailureReason::BrowserFailure,
                ),
                Ok(document) => match discovery::page_outcome(document) {
                    Err(_) => gives_up(
                        m,
                        after,
                        SearchFailureStage::FormValidation,
                        SearchFailureReason::UnsupportedPage,
                    ),
                    Ok(form) => if fits {
                        stays(m, after) && search_run::action_of(after)
                            == SearchActionModel::Submit(form, m.query)
                    } else {
                        gives_up(
                            m,
                            after,
                            SearchFailureStage::FormSubmission,
                            SearchFailureReason::BrowserFailure,
                        )
                    },
                },
            }
        }),
{
    let after = m.step(SearchEventModel::Opened(result));
    assert(after.failures.len() > m.failures.len() ==> after.failures.drop_last() =~= m.failures);
}

/// Once the query was sent, results are waited for until the timeout has passed
/// since; a query that could not be sent costs the candidate.
pub proof fn results_are_waited_for(
    m: SearchModel,
    now: u128,
    result: Result<(), BrowserFault>,
)
    requires
        m.is_sound(),
        m.stage == SearchStage::Submit,
    ensures
        ({
            let after = m.step(SearchEventModel::Submitted(now, result));
            match result {
                Ok(_) => {
                    &&& after.deadline == now + m.result_timeout || (after.deadline == u128::MAX
                        && now + m.result_timeout > u128::MAX)
                    &&& after.index == m.index && after.failures == m.failures && after.results
                        == m.results
                    &&& search_run::action_of(after) == SearchActionModel::TellTime
                },
                Err(BrowserFault::Timeout(_)) => gives_up(
                    m,
                    after,
                    SearchFailureStage::FormSubmission,
                    SearchFailureReason::Timeout,
                ),
                Err(_) => gives_up(
                    m,
                    after,
                    SearchFailureStage::FormSubmission,
                    SearchFailureReason::BrowserFailure,
                ),
            }
        }),
{
    let after = m.step(SearchEventModel::Submitted(now, result));
    assert(after.failures.len() > m.failures.len() ==> after.failures.drop_last() =~= m.failures);
}

/// While time is left the page is read, for no longer than that; once the deadline
/// has come the candidate is given up, and after a pause the time is told anew.
pub proof fn deadlines_are_kept(m: SearchModel, now: u128)
    requires
        m.is_sound(),
    ensures
        m.stage == SearchStage::Clock && now < m.deadline ==> stays(
            m,
            m.step(SearchEventModel::Time(now)),
        ) && search_run::action_of(m.step(SearchEventModel::Time(now)))
            == SearchActionModel::Read((m.deadline - now) as nat),
        m.stage == SearchStage::Clock && now >= m.deadline ==> gives_up(
            m,
            m.step(SearchEventModel::Time(now)),
            SearchFailureStage::ResultWait,
            SearchFailureReason::Timeout,
        ),
        m.stage == SearchStage::Sleep ==> stays(m, m.step(SearchEventModel::Slept))
            && search_run::action_of(m.step(SearchEventModel::Slept))
            == SearchActionModel::TellTime,
{
    let after = m.step(SearchEventModel::Time(now));
    assert(after.failures.len() > m.failures.len() ==> after.failures.drop_last() =~= m.failures);
}

/// A search opens its candidates in order, the first one first; without any it is
/// over at once, and it waits 75 milliseconds between two looks unless told
/// otherwise.
pub proof fn searches_start_with_the_first(
    candidates: Seq<weburl::UrlModel>,
    query: Seq<char>,
    timeout: nat,
    interval: nat,
)
    ensures
        ({
            let m = search_run::started(candidates, query, timeout, interval);
            &&& m.candidates == candidates && m.query == query && m.result_timeout == timeout
                && m.poll_interval == interval
            &&& m.failures.len() == 0 && m.results is None && m.index == 0
            &&& search_run::action_of(m) == if candidates.len() > 0 {
                SearchActionModel::Open(candidates[0])
            } else {
                SearchActionModel::Finished
            }
        }),
        search_run::DEFAULT_POLL_INTERVAL == 75_000_000,
{
}

// ------------------------------------------------------------------- discovery

/// The current candidate is dropped: its failure is noted in the list and in the
/// record, and the next one is checked, or the run is over.
pub open spec fn drops(
    m: RunModel,
    after: RunModel,
    stage: FailureStage,
    url: weburl::UrlModel,
    reason: FailureReason,
) -> bool {
    &&& after.failures.len() == m.failures.len() + 1
    &&& after.failures.drop_last() == m.failures
    &&& after.failures.last().stage == stage
    &&& after.failures.last().url == weburl::public_address(url.href)
    &&& after.failures.last().reason == reason
    &&& after.validated == m.validated
    &&& after.candidates == m.candidates
    &&& after.cache == health::after_failure(m.cache, m.candidates[m.index as int], m.now)
    &&& goes_on(m, after)
}

/// The next candidate is checked, or the run is over.
pub open spec fn goes_on(m: RunModel, after: RunModel) -> bool {
    if m.index + 1 < m.candidates.len() {
        discovery_run::action_of(after) == discovery_run::ActionModel::Check(
            m.candidates[m.index as int + 1],
        )
    } else {
        discovery_run::action_of(after) == discovery_run::ActionModel::Finished
    }
}

/// What an error of the browser is noted as.
pub open spec fn noted_as(fault: BrowserFault) -> FailureReason {
    match fault {
        BrowserFault::NavigationRejected(_) | BrowserFault::TooManyRedirects(_) =>
            FailureReason::RejectedNavigation,
        BrowserFault::Timeout(_) => FailureReason::Timeout,
        BrowserFault::InvalidExecutable(_) | BrowserFault::MissingExecutable
        | BrowserFault::Launch(_) | BrowserFault::PrematureExit | BrowserFault::Operation(_, _)
        | BrowserFault::UnexpectedWindow | BrowserFault::NoActivePage =>
            FailureReason::BrowserFailure,
    }
}

/// A candidate is rendered only where the policy permits its address, and is
/// dropped at the preflight where it does not.
pub proof fn candidates_are_checked_first(m: RunModel, lookup: Lookup)
    requires
        m.is_sound(),
        m.stage == RunStage::CandidateCheck,
    ensures
        ({
            let url = m.candidates[m.index as int];
            let after = m.step(discovery_run::EventModel::Looked(lookup));
            if browser::policy_outcome(m.allow_local, url, lookup) is Ok {
                &&& discovery_run::action_of(after) == discovery_run::ActionModel::Render(url)
                &&& after.failures == m.failures && after.validated == m.validated && after.cache
                    == m.cache && after.index == m.index && after.candidates == m.candidates
            } else {
                drops(
                    m,
                    after,
                    FailureStage::CandidatePreflight,
                    url,
                    FailureReason::RejectedNavigation,
                )
            }
        }),
{
    let after = m.step(discovery_run::EventModel::Looked(lookup));
    assert(after.failures.len() > m.failures.len() ==> after.failures.drop_last() =~= m.failures);
}

/// A candidate that was rendered is checked once more, at the address where its
/// page ended; one that could not be is dropped for what the browser said.
pub proof fn rendered_candidates_are_checked_again(
    m: RunModel,
    result: Result<browser::DocumentModel, BrowserFault>,
)
    requires
        m.is_sound(),
        m.stage == RunStage::CandidateRender,
    ensures
        ({
            let url = m.candidates[m.index as int];
            let after = m.step(discovery_run::EventModel::Rendered(result));
            match result {
                Ok(document) => {
                    &&& discovery_run::action_of(after) == discovery_run::ActionModel::Check(
                        document.url,
                    )
                    &&& after.document == Some(document)
                    &&& after.failures == m.failures && after.validated == m.validated
                        && after.cache == m.cache && after.index == m.index && after.candidates
                        == m.candidates
                },
                Err(fault) => drops(m, after, FailureStage::CandidateRender, url, noted_as(fault)),
            }
        }),
{
    let after = m.step(discovery_run::EventModel::Rendered(result));
    assert(after.failures.len() > m.failures.len() ==> after.failures.drop_last() =~= m.failures);
}

/// A candidate whose page ended at a permitted address and is a search page is
/// usable, with its form, and is recorded as working; any other is dropped for what
/// its page is, or for where it ended.
pub proof fn search_pages_are_usable(m: RunModel, lookup: Lookup)
    requires
        m.is_sound(),
        m.stage == RunStage::CandidateRecheck,
    ensures
        ({
            let url = m.candidates[m.index as int];
            let document = m.document->0;
            let after = m.step(discovery_run::EventModel::Looked(lookup));
            if browser::policy_outcome(m.allow_local, document.url, lookup) is Err {
                drops(
                    m,
                    after,
                    FailureStage::CandidateValidation,
                    document.url,
                    FailureReason::RejectedNavigation,
                )
            } else {
                match discovery::page_outcome(document) {
                    Err(reason) => drops(m, after, FailureStage::CandidateValidation, url, reason),
                    Ok(form) => {
                        &&& after.validated.len() == m.validated.len() + 1
                        &&& after.validated.drop_last() == m.validated
                        &&& after.validated.last().candidate == url
                        &&& after.validated.last().rendered_url == document.url
                        &&& after.validated.last().search_form == form
                        &&& after.failures == m.failures
                        &&& after.candidates == m.candidates
                        &&& after.cache == health::after_success(m.cache, url, m.now)
                        &&& goes_on(m, after)
                    },
                }
            }
        }),
{
    let after = m.step(discovery_run::EventModel::Looked(lookup));
    assert(after.failures.len() > m.failures.len() ==> after.failures.drop_last() =~= m.failures);
    assert(after.validated.len() > m.validated.len() ==> after.validated.drop_last()
        =~= m.validated);
}

/// A source page is left: the next one is checked while there is room for
/// candidates, and after that the first candidate, or the run is over.
pub open spec fn leaves_source(m: RunModel, after: RunModel) -> bool {
    &&& after.validated == m.validated && after.cache == m.cache
    &&& discovery_run::action_of(after) == if m.index + 1 < m.sources.len()
        && after.candidates.len() < m.limit {
        discovery_run::ActionModel::Check(m.sources[m.index as int + 1])
    } else if after.candidates.len() > 0 {
        discovery_run::ActionModel::Check(after.candidates[0])
    } else {
        discovery_run::ActionModel::Finished
    }
}

/// A source page fails: that is noted, and it is left.
pub open spec fn source_fails(
    m: RunModel,
    after: RunModel,
    url: weburl::UrlModel,
    reason: FailureReason,
) -> bool {
    &&& after.failures.len() == m.failures.len() + 1
    &&& after.failures.drop_last() == m.failures
    &&& after.failures.last().stage == FailureStage::DiscoverySource
    &&& after.failures.last().url == weburl::public_address(url.href)
    &&& after.failures.last().reason == reason
    &&& after.candidates == m.candidates
    &&& leaves_source(m, after)
}

/// A source page is rendered where the policy permits its address, is checked once
/// more where it ended, and is noted as failed where either is refused or it could
/// not be rendered.
pub proof fn sources_are_checked_and_rendered(
    m: RunModel,
    lookup: Lookup,
    result: Result<browser::DocumentModel, BrowserFault>,
)
    requires
        m.is_sound(),
    ensures
        m.stage == RunStage::SourceCheck ==> {
            let url = m.sources[m.index as int];
            let after = m.step(discovery_run::EventModel::Looked(lookup));
            if browser::policy_outcome(m.allow_local, url, lookup) is Ok {
                discovery_run::action_of(after) == discovery_run::ActionModel::Render(url)
                    && after.failures == m.failures && after.candidates == m.candidates
            } else {
                source_fails(m, after, url, FailureReason::RejectedNavigation)
            }
        },
        m.stage == RunStage::SourceRender ==> {
            let url = m.sources[m.index as int];
            let after = m.step(discovery_run::EventModel::Rendered(result));
            match result {
                Ok(document) => discovery_run::action_of(after)
                    == discovery_run::ActionModel::Check(document.url) && after.document == Some(
                    document,
                ) && after.failures == m.failures && after.candidates == m.candidates,
                Err(fault) => source_fails(m, after, url, noted_as(fault)),
            }
        },
        m.stage == RunStage::SourceRecheck ==> {
            let document = m.document->0;
            let after = m.step(discovery_run::EventModel::Looked(lookup));
            browser::policy_outcome(m.allow_local, document.url, lookup) is Err ==> source_fails(
                m,
                after,
                document.url,
                FailureReason::RejectedNavigation,
            )
        },
{
    let looked = m.step(discovery_run::EventModel::Looked(lookup));
    let rendered = m.step(discovery_run::EventModel::Rendered(result));
    assert(looked.failures.len() > m.failures.len() ==> looked.failures.drop_last() =~= m.failures);
    assert(rendered.failures.len() > m.failures.len() ==> rendered.failures.drop_last()
        =~= m.failures);
}

proof fn sites_are_added(
    list: Seq<weburl::UrlModel>,
    urls: Seq<weburl::UrlModel>,
    limit: nat,
)
    ensures
        ({
            let after = discovery_run::with_candidates(list, urls, limit);
            &&& list.is_prefix_of(after)
            &&& list.len() <= limit ==> after.len() <= limit
            &&& after.len() < limit ==> forall|k: int|
                0 <= k < urls.len() ==> discovery_laws::holds_site(after, #[trigger] urls[k])
            &&& forall|i: int|
                list.len() <= i < after.len() ==> urls.contains(#[trigger] after[i])
        }),
    decreases urls.len(),
{
    let after = discovery_run::with_candidates(list, urls, limit);
    if urls.len() > 0 {
        let rest = urls.drop_last();
        let before = discovery_run::with_candidates(list, rest, limit);
        sites_are_added(list, rest, limit);
        one_site_is_added(before, urls.last(), limit);
        assert(after == discovery_run::with_candidate(before, urls.last(), limit));
        assert(list.is_prefix_of(after)) by {
            assert(after.take(list.len() as int) =~= list) by {
                assert(before.take(list.len() as int) =~= list);
            }
        }
        if after.len() < limit {
            assert forall|k: int| 0 <= k < urls.len() implies discovery_laws::holds_site(
                after,
                #[trigger] urls[k],
            ) by {
                if k < rest.len() {
                    assert(rest[k] == urls[k]);
                    let i = choose|i: int|
                        0 <= i < before.len() && discovery_laws::same_site(
                            #[trigger] before[i],
                            urls[k],
                        );
                    assert(after[i] == before[i]);
                }
            }
        }
        assert forall|i: int| list.len() <= i < after.len() implies urls.contains(
            #[trigger] after[i],
        ) by {
            if i < before.len() {
                assert(after[i] == before[i]);
                let k = choose|k: int| 0 <= k < rest.len() && rest[k] == before[i];
                assert(urls[k] == after[i]);
            } else {
                assert(urls[urls.len() - 1] == after[i]);
            }
        }
    } else {
        assert(list.take(list.len() as int) =~= list);
    }
}

proof fn one_site_is_added(list: Seq<weburl::UrlModel>, url: weburl::UrlModel, limit: nat)
    ensures
        ({
            let after = discovery_run::with_candidate(list, url, limit);
            &&& after == list || after == list.push(url)
            &&& after.len() < limit ==> discovery_laws::holds_site(after, url)
            &&& list.len() < limit && !discovery_laws::holds_site(list, url) ==> after
                == list.push(url)
            &&& list.len() >= limit || discovery_laws::holds_site(list, url) ==> after == list
        }),
{
    let after = discovery_run::with_candidate(list, url, limit);
    discovery_laws::keys_hold_sites(list, url);
    if after != list {
        discovery_laws::sites_are_hosts_and_ports(url, url);
        assert(discovery_laws::same_site(after[list.len() as int], url));
    }
}

/// Every site that a permitted source page lists becomes a candidate, behind those
/// that are there, unless it is one already or the list is full; nothing else does.
pub proof fn sources_give_candidates(m: RunModel, lookup: Lookup)
    requires
        m.is_sound(),
        m.stage == RunStage::SourceRecheck,
        browser::policy_outcome(m.allow_local, m.document->0.url, lookup) is Ok,
    ensures
        ({
            let after = m.step(discovery_run::EventModel::Looked(lookup));
            let listed = discovery::extracted(
                m.document->0,
                (m.limit - m.candidates.len()) as nat,
            );
            &&& m.candidates.is_prefix_of(after.candidates)
            &&& after.candidates.len() < m.limit ==> forall|k: int|
                0 <= k < listed.len() ==> discovery_laws::holds_site(
                    after.candidates,
                    #[trigger] listed[k],
                )
            &&& forall|i: int|
                m.candidates.len() <= i < after.candidates.len() ==> listed.contains(
                    #[trigger] after.candidates[i],
                )
            &&& after.failures == m.failures
            &&& leaves_source(m, after)
        }),
{
    let listed = discovery::extracted(m.document->0, (m.limit - m.candidates.len()) as nat);
    sites_are_added(m.candidates, listed, m.limit);
}

proof fn seeds_are_added(
    list: Seq<weburl::UrlModel>,
    seeds: Seq<weburl::UrlModel>,
    limit: nat,
)
    ensures
        ({
            let after = discovery_run::with_seeds(list, seeds, limit);
            &&& list.is_prefix_of(after)
            &&& list.len() <= limit ==> after.len() <= limit
            &&& after.len() < limit ==> forall|k: int|
                0 <= k < seeds.len() ==> (discovery::normalized(#[trigger] seeds[k]) matches Some(url)
                    ==> discovery_laws::holds_site(after, url))
        }),
    decreases seeds.len(),
{
    let after = discovery_run::with_seeds(list, seeds, limit);
    if seeds.len() > 0 {
        let rest = seeds.drop_last();
        let before = discovery_run::with_seeds(list, rest, limit);
        seeds_are_added(list, rest, limit);
        if let Some(url) = discovery::normalized(seeds.last()) {
            one_site_is_added(before, url, limit);
        }
        assert(list.is_prefix_of(after)) by {
            assert(after.take(list.len() as int) =~= list) by {
                assert(before.take(list.len() as int) =~= list);
            }
        }
        if after.len() < limit {
            assert forall|k: int| 0 <= k < seeds.len() implies (discovery::normalized(
                #[trigger] seeds[k],
            ) matches Some(url) ==> discovery_laws::holds_site(after, url)) by {
                if k < rest.len() {
                    assert(rest[k] == seeds[k]);
                    if let Some(url) = discovery::normalized(seeds[k]) {
                        let i = choose|i: int|
                            0 <= i < before.len() && discovery_laws::same_site(
                                #[trigger] before[i],
                                url,
                            );
                        assert(after[i] == before[i]);
                    }
                }
            }
        }
    } else {
        assert(list.take(list.len() as int) =~= list);
    }
}

/// A run starts with the candidates that worked lately, then the seeds, one for each
/// site and no more than are asked for and than 64; it reads the first source pages,
/// no more than are asked for and than 8.
pub proof fn runs_start_with_what_is_known(
    allow_local: bool,
    now: u64,
    cache: Seq<health::EntryModel>,
    settings: DiscoveryConfig,
)
    ensures
        ({
            let m = discovery_run::started(allow_local, now, cache, settings);
            let limit: nat = if settings.max_candidates@ < 64 {
                settings.max_candidates@
            } else {
                64
            };
            let pages: int = if settings.max_source_pages@ < 8 {
                settings.max_source_pages@ as int
            } else {
                8
            };
            let fresh = health::fresh_candidates(
                cache,
                now,
                settings.cache_ttl_seconds,
                limit as int,
            );
            let seeds = weburl::url_views(settings.seed_candidates@);
            &&& m.limit == limit
            &&& m.sources == row_laws::front(weburl::url_views(settings.source_pages@), pages)
            &&& m.cache == cache && m.now == now && m.allow_local == allow_local
            &&& m.validated.len() == 0
            &&& m.candidates.len() <= limit
            &&& m.candidates.len() < limit ==> (forall|k: int|
                0 <= k < fresh.len() ==> discovery_laws::holds_site(
                    m.candidates,
                    #[trigger] fresh[k],
                )) && (forall|k: int|
                0 <= k < seeds.len() ==> (discovery::normalized(#[trigger] seeds[k]) matches Some(url)
                    ==> discovery_laws::holds_site(m.candidates, url)))
            &&& discovery_run::action_of(m) == if m.sources.len() > 0 && m.candidates.len()
                < limit {
                discovery_run::ActionModel::Check(m.sources[0])
            } else if m.candidates.len() > 0 {
                discovery_run::ActionModel::Check(m.candidates[0])
            } else {
                discovery_run::ActionModel::Finished
            }
        }),
{
    let m = discovery_run::started(allow_local, now, cache, settings);
    let limit: nat = if settings.max_candidates@ < 64 {
        settings.max_candidates@
    } else {
        64
    };
    let pages: int = if settings.max_source_pages@ < 8 {
        settings.max_source_pages@ as int
    } else {
        8
    };
    let all = weburl::url_views(settings.source_pages@);
    assert(discovery::bounded(all, pages) =~= row_laws::front(all, pages));
    let fresh = health::fresh_candidates(cache, now, settings.cache_ttl_seconds, limit as int);
    let seeds = weburl::url_views(settings.seed_candidates@);
    let known = discovery_run::with_candidates(Seq::empty(), fresh, limit);
    sites_are_added(Seq::empty(), fresh, limit);
    seeds_are_added(known, seeds, limit);
    assert forall|k: int| m.candidates.len() < limit && 0 <= k < fresh.len() implies discovery_laws::holds_site(
        m.candidates,
        #[trigger] fresh[k],
    ) by {
        assert(known.len() <= m.candidates.len());
        let i = choose|i: int|
            0 <= i < known.len() && discovery_laws::same_site(#[trigger] known[i], fresh[k]);
        assert(m.candidates[i] == known[i]);
    }
}

/// Each seed that is no candidate is noted as refused, in order, and no other is.
pub proof fn bad_seeds_are_noted(seeds: Seq<weburl::UrlModel>, seed: weburl::UrlModel)
    ensures
        ({
            let before = discovery_run::seed_failures(seeds);
            let after = discovery_run::seed_failures(seeds.push(seed));
            &&& discovery::normalized(seed) is Some ==> after == before
            &&& discovery::normalized(seed) is None ==> after == before.push(
                discovery::FailureModel {
                    stage: FailureStage::CandidatePreflight,
                    url: weburl::public_address(seed.href),
                    reason: FailureReason::RejectedNavigation,
                },
            )
        }),
        discovery_run::seed_failures(Seq::empty()).len() == 0,
{
    assert(seeds.push(seed).drop_last() =~= seeds);
}

// ---------------------------------------------------------------- whole program

/// The run is over with an error.
pub open spec fn fails_with(after: WorkflowModel, fault: WorkflowFault) -> bool {
    after.stage == WorkflowStage::Done && after.result == Some(
        Err::<(model::TorrentModel, bool), WorkflowFault>(fault),
    )
}

/// No results are an error that names the query; otherwise the first ones are
/// offered, as many as are to be shown.
pub proof fn results_are_offered(m: WorkflowModel)
    requires
        m.is_sound(),
        m.stage == WorkflowStage::Report,
    ensures
        m.results.len() == 0 ==> fails_with(
            m.step(WorkflowEvent::Reported),
            WorkflowFault::NoResults(m.query),
        ),
        m.results.len() > 0 ==> m.step(WorkflowEvent::Reported).results == row_laws::front(
            m.results,
            m.result_limit as int,
        ) && m.step(WorkflowEvent::Reported).stage == WorkflowStage::Answer,
{
    if m.results.len() > 0 {
        assert(m.step(WorkflowEvent::Reported).results =~= row_laws::front(
            m.results,
            m.result_limit as int,
        ));
    }
}

/// The result that is taken: the first one in an automatic run, whatever is
/// answered; else the one that was picked. A prompt that failed or was cancelled,
/// and a pick that is out of range, end the run.
pub proof fn answers_are_followed(m: WorkflowModel, answer: PromptAnswer)
    requires
        m.is_sound(),
        m.stage == WorkflowStage::Answer,
    ensures
        ({
            let after = m.step(WorkflowEvent::Answered(answer));
            if m.automatic {
                after.stage == WorkflowStage::Announce && after.selected == Some(m.results[0])
            } else {
                match answer {
                    PromptAnswer::Failed => fails_with(
                        after,
                        WorkflowFault::Selection(SelectionError::PromptFailed),
                    ),
                    PromptAnswer::Cancelled => fails_with(
                        after,
                        WorkflowFault::Selection(SelectionError::Cancelled),
                    ),
                    PromptAnswer::Picked(index) => if index < m.results.len() {
                        after.stage == WorkflowStage::Announce && after.selected == Some(
                            m.results[index as int],
                        )
                    } else {
                        fails_with(after, WorkflowFault::OutOfRange)
                    },
                }
            }
        }),
{
}

/// What is taken is downloaded, unless the run is dry; and the run ends well only
/// if the download did.
pub proof fn selections_are_downloaded(
    m: WorkflowModel,
    selected: model::TorrentModel,
    result: Result<(), String>,
)
    requires
        m.is_sound(),
        m.selected == Some(selected),
    ensures
        m.stage == WorkflowStage::Announce && m.dry_run ==> m.step(WorkflowEvent::Announced).result
            == Some(Ok::<(model::TorrentModel, bool), WorkflowFault>((selected, false))),
        m.stage == WorkflowStage::Announce && !m.dry_run ==> m.step(WorkflowEvent::Announced).stage
            == WorkflowStage::Download && m.step(WorkflowEvent::Announced).selected == Some(
            selected,
        ),
        m.stage == WorkflowStage::Download ==> (match result {
            Ok(_) => m.step(WorkflowEvent::Downloaded(result)).result == Some(
                Ok::<(model::TorrentModel, bool), WorkflowFault>((selected, true)),
            ),
            Err(message) => fails_with(
                m.step(WorkflowEvent::Downloaded(result)),
                WorkflowFault::Download(message@),
            ),
        }),
{
}

/// What failed before the browser was shut down is told afterwards, and goes before
/// a failure of the shutdown; without any the results are reported.
pub proof fn failures_are_told_after_the_shutdown(m: WorkflowModel, result: Result<(), String>)
    requires
        m.is_sound(),
        m.stage == WorkflowStage::Shutdown,
    ensures
        ({
            let after = m.step(WorkflowEvent::ShutDown(result));
            match (m.failure, result) {
                (Some(fault), _) => fails_with(after, fault),
                (None, Err(message)) => fails_with(after, WorkflowFault::Shutdown(message@)),
                (None, Ok(_)) => after.stage == WorkflowStage::Report && after.results
                    == m.results && after.notes == m.notes,
            }
        }),
{
}

} // verus!
