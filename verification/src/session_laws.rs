//! Laws of a session: reading the page that is open, ending the browser, and what
//! the program does with what a session gives.

use crate::app;
use crate::app::WorkflowFault;
use crate::app_run;
use crate::app_run::{WorkflowEvent, WorkflowModel, WorkflowStage};
use crate::browser;
use crate::browser::{BrowserFault, ExitAttempt, Lookup, OperationFailure, PageInfo};
use crate::cli::Cli;
use crate::config::AppConfig;
use crate::discovery;
use crate::discovery_run;
use crate::model;
use crate::policy_laws;
use crate::search_run;
use crate::session_run;
use crate::session_run::{
    NavigationActionModel, NavigationEvent, NavigationModel, NavigationStage, ShutdownEvent,
    ShutdownModel, ShutdownStage,
};
use crate::submission_run;
use crate::submission_run::{
    SubmissionActionModel, SubmissionEvent, SubmissionModel, SubmissionStage,
};
use crate::text;
use crate::weburl;
use vstd::prelude::*;

verus! {

// --------------------------------------------------------------- the open page

proof fn open_pages_are_addressed(
    m: NavigationModel,
    remaining: u128,
    reported: String,
    ended: weburl::UrlModel,
    lookup: Lookup,
)
    requires
        m.stage == NavigationStage::AddressBudget,
        m.wanted is None,
        remaining > 0,
        weburl::url_parse(reported@) == Some(ended),
        browser::policy_outcome(m.allow_local, ended, lookup) is Ok,
    ensures
        ({
            let after = m.step(NavigationEvent::Remaining(remaining)).step(
                NavigationEvent::Addressed(Ok(Some(reported))),
            ).step(NavigationEvent::Remaining(remaining)).step(NavigationEvent::Looked(lookup));
            after.stage == NavigationStage::ContentBudget && after.found == Some(ended)
                && after.wanted is None && after.initial == m.initial
        }),
{
    let a = m.step(NavigationEvent::Remaining(remaining));
    assert(a.stage == NavigationStage::Address && a.wanted is None && a.initial == m.initial);
    let b = a.step(NavigationEvent::Addressed(Ok(Some(reported))));
    assert(b.stage == NavigationStage::FinalBudget && b.found == Some(ended) && b.wanted is None);
    let c = b.step(NavigationEvent::Remaining(remaining));
    assert(c.stage == NavigationStage::FinalCheck && c.found == Some(ended) && c.wanted is None);
}

proof fn open_pages_give_their_contents(
    m: NavigationModel,
    remaining: u128,
    html: String,
    windows: (String, Vec<PageInfo>),
    ended: weburl::UrlModel,
)
    requires
        m.stage == NavigationStage::ContentBudget,
        m.wanted is None,
        m.found == Some(ended),
        remaining > 0,
        vstd::utf8::encode_utf8(html@).len() <= 2 * 1024 * 1024,
        browser::windows_outcome(windows.0@, m.initial, windows.1@) is Ok,
    ensures
        m.step(NavigationEvent::Remaining(remaining)).step(
            NavigationEvent::Contents(Ok(html)),
        ).step(NavigationEvent::Remaining(remaining)).step(
            NavigationEvent::Windows(Ok(windows)),
        ).result == Some(
            Ok::<browser::DocumentModel, BrowserFault>(
                browser::DocumentModel { url: ended, html: html@ },
            ),
        ),
{
    let a = m.step(NavigationEvent::Remaining(remaining));
    assert(a.stage == NavigationStage::Content && a.found == m.found && a.wanted is None);
    let b = a.step(NavigationEvent::Contents(Ok(html)));
    assert(b.stage == NavigationStage::WindowBudget && b.found == m.found && b.wanted is None
        && b.html == html@ && b.initial == m.initial);
    let c = b.step(NavigationEvent::Remaining(remaining));
    assert(c.stage == NavigationStage::Windows && c.found == m.found && c.wanted is None && c.html
        == html@ && c.initial == m.initial);
}

/// Reading the open page in which nothing goes wrong: it gives the address at which
/// the page is and its contents as they are.
pub proof fn open_pages_are_read(
    allow_local: bool,
    hops: usize,
    timeout: u128,
    initial: Seq<Seq<char>>,
    remaining: u128,
    reported: String,
    ended: weburl::UrlModel,
    lookup: Lookup,
    html: String,
    windows: (String, Vec<PageInfo>),
)
    requires
        remaining > 0,
        weburl::url_parse(reported@) == Some(ended),
        browser::policy_outcome(allow_local, ended, lookup) is Ok,
        vstd::utf8::encode_utf8(html@).len() <= 2 * 1024 * 1024,
        browser::windows_outcome(windows.0@, initial, windows.1@) is Ok,
    ensures
        session_run::reading_started(allow_local, true, hops, timeout, initial).step(
            NavigationEvent::Remaining(remaining),
        ).step(NavigationEvent::Addressed(Ok(Some(reported)))).step(
            NavigationEvent::Remaining(remaining),
        ).step(NavigationEvent::Looked(lookup)).step(NavigationEvent::Remaining(remaining)).step(
            NavigationEvent::Contents(Ok(html)),
        ).step(NavigationEvent::Remaining(remaining)).step(
            NavigationEvent::Windows(Ok(windows)),
        ).result == Some(
            Ok::<browser::DocumentModel, BrowserFault>(
                browser::DocumentModel { url: ended, html: html@ },
            ),
        ),
{
    let start = session_run::reading_started(allow_local, true, hops, timeout, initial);
    open_pages_are_addressed(start, remaining, reported, ended, lookup);
    let known = start.step(NavigationEvent::Remaining(remaining)).step(
        NavigationEvent::Addressed(Ok(Some(reported))),
    ).step(NavigationEvent::Remaining(remaining)).step(NavigationEvent::Looked(lookup));
    open_pages_give_their_contents(known, remaining, html, windows, ended);
}

/// Without an open page there is nothing to read, and redirects that were counted
/// before go on counting, up to five.
pub proof fn reading_needs_a_page(
    allow_local: bool,
    hops: usize,
    timeout: u128,
    initial: Seq<Seq<char>>,
)
    ensures
        policy_laws::reading_fails(
            session_run::reading_started(allow_local, false, hops, timeout, initial),
            BrowserFault::NoActivePage,
        ),
        ({
            let start = session_run::reading_started(allow_local, true, hops, timeout, initial);
            &&& hops <= 5 ==> start.hops == hops
            &&& hops > 5 ==> start.hops == 5
            &&& start.wanted is None
            &&& start.allow_local == allow_local
        }),
{
}

/// A window that nobody asked for, and windows that cannot be told, drop a page that
/// was opened for this; of the open page they are only told.
pub proof fn bad_windows_are_told(
    m: NavigationModel,
    windows: (String, Vec<PageInfo>),
    message: String,
)
    requires
        m.is_sound(),
        m.stage == NavigationStage::Windows,
    ensures
        browser::windows_outcome(windows.0@, m.initial, windows.1@) matches Err(fault) ==> {
            let after = m.step(NavigationEvent::Windows(Ok(windows)));
            &&& m.wanted is Some ==> policy_laws::page_is_dropped(after, fault)
            &&& m.wanted is None ==> policy_laws::reading_fails(after, fault)
        },
        ({
            let after = m.step(NavigationEvent::Windows(Err(OperationFailure::Failed(message))));
            let fault = BrowserFault::Operation("window check"@, message@);
            &&& m.wanted is Some ==> policy_laws::page_is_dropped(after, fault)
            &&& m.wanted is None ==> policy_laws::reading_fails(after, fault)
        }),
        ({
            let after = m.step(NavigationEvent::Windows(Err(OperationFailure::TimedOut)));
            let fault = BrowserFault::Timeout("window check"@);
            &&& m.wanted is Some ==> policy_laws::page_is_dropped(after, fault)
            &&& m.wanted is None ==> policy_laws::reading_fails(after, fault)
        }),
{
}

/// Each part of a reading may take what remains of the session, and no longer than
/// one navigation; where nothing remains, the part that timed out is told.
pub proof fn every_part_is_timed(m: NavigationModel, remaining: u128)
    requires
        m.is_sound(),
    ensures
        ({
            let limit = if remaining < m.navigation_timeout {
                remaining
            } else {
                m.navigation_timeout
            };
            let after = m.step(NavigationEvent::Remaining(remaining));
            let asked = session_run::navigation_action(after);
            &&& m.stage == NavigationStage::Budget && remaining > 0 ==> asked
                == NavigationActionModel::Check(m.wanted->0, limit)
            &&& m.stage == NavigationStage::WindowBudget && remaining > 0 ==> asked
                == NavigationActionModel::ReadWindows(limit)
            &&& m.stage == NavigationStage::AddressBudget && remaining > 0 ==> asked
                == NavigationActionModel::ReadAddress(limit)
            &&& m.stage == NavigationStage::FinalBudget && remaining > 0 ==> asked
                == NavigationActionModel::Check(m.found->0, limit)
            &&& m.stage == NavigationStage::ContentBudget && remaining > 0 ==> asked
                == NavigationActionModel::ReadContent(limit)
            &&& m.stage == NavigationStage::Budget && remaining == 0 ==> policy_laws::reading_fails(
                after,
                BrowserFault::Timeout("navigation"@),
            )
            &&& m.stage == NavigationStage::AddressBudget && remaining == 0
                ==> policy_laws::reading_fails(after, BrowserFault::Timeout("URL read"@))
            &&& (m.stage == NavigationStage::FinalBudget || m.stage
                == NavigationStage::ContentBudget) && remaining == 0 ==> policy_laws::reading_fails(
                after,
                BrowserFault::Timeout("document read"@),
            )
            &&& m.stage == NavigationStage::WindowBudget && remaining == 0 && m.wanted is None
                ==> policy_laws::reading_fails(after, BrowserFault::Timeout("window check"@))
            &&& m.stage == NavigationStage::WindowBudget && remaining == 0 && m.wanted is Some
                ==> policy_laws::page_is_dropped(after, BrowserFault::Timeout("window check"@))
        }),
{
}

/// A page is asked for as it was wanted: a blank one is opened and goes to the
/// wanted address, within the time that the navigation was given.
pub proof fn wanted_pages_are_gone_to(m: NavigationModel, lookup: Lookup)
    requires
        m.is_sound(),
        m.stage == NavigationStage::Check,
        browser::policy_outcome(m.allow_local, m.wanted->0, lookup) is Ok,
    ensures
        ({
            let checked = m.step(NavigationEvent::Looked(lookup));
            &&& session_run::navigation_action(checked) == NavigationActionModel::Open(m.page_limit)
            &&& session_run::navigation_action(checked.step(NavigationEvent::Opened(Ok(()))))
                == NavigationActionModel::Go(m.wanted->0, m.page_limit)
        }),
{
}

// -------------------------------------------------------------------- the query

/// A document that is asked for while a query is sent or its answer is loaded is
/// judged: a sixth redirect and a refused address close the page and are told, and
/// any other request lets the submission go on.
pub proof fn requests_of_a_query_are_judged(
    m: SubmissionModel,
    redirected: bool,
    url: weburl::Url,
    lookup: Lookup,
)
    requires
        m.is_sound(),
        m.stage == SubmissionStage::Submit || m.stage == SubmissionStage::Load,
    ensures
        ({
            let after = m.step(SubmissionEvent::Requested { redirected, url, lookup });
            let verdict = browser::policy_outcome(m.allow_local, url@, lookup);
            &&& redirected && m.hops >= 5 ==> query_is_dropped(
                after,
                BrowserFault::TooManyRedirects(5),
            )
            &&& !(redirected && m.hops >= 5) ==> (verdict matches Err(fault) ==> query_is_dropped(
                after,
                fault,
            ))
            &&& !(redirected && m.hops >= 5) && verdict is Ok ==> after.stage == m.stage
                && after.hops == m.hops + (if redirected {
                1int
            } else {
                0
            })
        }),
{
}

/// The page is closed, and then the error is given.
pub open spec fn query_is_dropped(after: SubmissionModel, fault: BrowserFault) -> bool {
    submission_run::submission_action(after) == SubmissionActionModel::ClosePage
        && policy_laws::submission_fails(after.step(SubmissionEvent::Closed), fault)
}

// --------------------------------------------------------------------- the end

/// The browser is closed, waited for, and its profile removed, in this order.
pub proof fn sessions_end_well()
    ensures
        ({
            let start = session_run::shutdown_started();
            let closed = start.step(ShutdownEvent::PageClosed);
            let asked = closed.step(ShutdownEvent::Asked(ExitAttempt::Done));
            let waited = asked.step(ShutdownEvent::Waited(ExitAttempt::Done));
            let stopped = waited.step(ShutdownEvent::EventsStopped);
            let ended = stopped.step(ShutdownEvent::ProfileRemoved);
            &&& start.stage == ShutdownStage::ClosePage
            &&& closed.stage == ShutdownStage::Close
            &&& asked.stage == ShutdownStage::Wait
            &&& waited.stage == ShutdownStage::StopEvents
            &&& stopped.stage == ShutdownStage::RemoveProfile
            &&& ended.stage == ShutdownStage::Done
            &&& ended.outcome is Ok
        }),
{
}

/// A browser that cannot be asked to close, or does not end in time, is killed, and
/// what went wrong is told in the end.
pub proof fn stubborn_browsers_are_killed(m: ShutdownModel, message: String)
    requires
        m.is_sound(),
    ensures
        m.stage == ShutdownStage::Close ==> {
            let failed = m.step(ShutdownEvent::Asked(ExitAttempt::Failed(message)));
            let late = m.step(ShutdownEvent::Asked(ExitAttempt::TimedOut));
            &&& failed.stage == ShutdownStage::Kill
            &&& failed.outcome == Err::<(), BrowserFault>(
                BrowserFault::Operation("shutdown"@, message@),
            )
            &&& late.stage == ShutdownStage::Kill
            &&& late.outcome == Err::<(), BrowserFault>(BrowserFault::Timeout("shutdown"@))
        },
        m.stage == ShutdownStage::Wait ==> {
            let failed = m.step(ShutdownEvent::Waited(ExitAttempt::Failed(message)));
            let late = m.step(ShutdownEvent::Waited(ExitAttempt::TimedOut));
            &&& failed.stage == ShutdownStage::StopEvents
            &&& failed.outcome == Err::<(), BrowserFault>(
                BrowserFault::Operation("shutdown"@, message@),
            )
            &&& late.stage == ShutdownStage::Kill
            &&& late.outcome == Err::<(), BrowserFault>(BrowserFault::Timeout("shutdown"@))
        },
        m.stage == ShutdownStage::Kill ==> m.step(ShutdownEvent::Killed).stage
            == ShutdownStage::StopEvents && m.step(ShutdownEvent::Killed).outcome == m.outcome,
{
}

// ----------------------------------------------------------------- the program

/// A run starts with what was asked for: the query, whether the choice is automatic
/// and the run is dry, and how many results are shown.
pub proof fn runs_start_with_the_query(config: AppConfig, cli: Cli)
    ensures
        ({
            let start = app_run::run_started(config, cli);
            &&& start.stage == WorkflowStage::Launch
            &&& start.query == cli.query@
            &&& start.automatic == cli.auto
            &&& start.dry_run == cli.dry_run
            &&& start.result_limit == config.search.result_limit@
            &&& start.notes.len() == 0
            &&& start.result is None
        }),
{
}

/// A browser that could not be launched ends the run at once, since there is nothing
/// to shut down; one that was launched looks for proxies.
pub proof fn launched_browsers_discover(m: WorkflowModel, message: String)
    requires
        m.stage == WorkflowStage::Launch,
    ensures
        m.step(WorkflowEvent::Launched(Ok(()))).stage == WorkflowStage::Discover,
        m.step(WorkflowEvent::Launched(Err(message))).result == Some(
            Err::<(model::TorrentModel, bool), WorkflowFault>(WorkflowFault::Browser(message@)),
        ),
{
}

/// The proxies that were found are searched, all of them and in their order; without
/// any, the browser is shut down and that is what failed.
pub proof fn found_proxies_are_searched(
    m: WorkflowModel,
    result: Result<discovery_run::DiscoveryOutcome, discovery_run::DiscoveryError>,
)
    requires
        m.stage == WorkflowStage::Discover,
    ensures
        match result {
            Ok(outcome) => {
                let after = m.step(WorkflowEvent::Discovered(result));
                &&& after.candidates.len() == outcome.candidates@.len()
                &&& forall|i: int|
                    0 <= i < outcome.candidates@.len() ==> #[trigger] after.candidates[i]
                        == outcome.candidates@[i]@
                &&& outcome.candidates@.len() > 0 ==> after.stage == WorkflowStage::Search
                    && after.failure == m.failure
                &&& outcome.candidates@.len() == 0 ==> after.stage == WorkflowStage::Shutdown
                    && after.failure == Some(WorkflowFault::NoCandidates)
                &&& after.notes == m.notes + app::discovery_notes(
                    discovery::failure_views(outcome.failures@),
                    text::opt_view(outcome.cache_warning),
                )
            },
            Err(error) => {
                let after = m.step(WorkflowEvent::Discovered(result));
                &&& after.stage == WorkflowStage::Shutdown
                &&& after.failure == Some(
                    WorkflowFault::Discovery(
                        app::discovery_error_text(discovery::failure_views(error->failures@)),
                    ),
                )
            },
        },
{
}

/// The results of a search are kept as they are while the browser is shut down; a
/// search that failed is what failed.
pub proof fn search_results_are_kept(
    m: WorkflowModel,
    result: Result<search_run::SearchOutcome, search_run::SearchError>,
)
    requires
        m.stage == WorkflowStage::Search,
    ensures
        ({
            let after = m.step(WorkflowEvent::Searched(result));
            &&& after.stage == WorkflowStage::Shutdown
            &&& match result {
                Ok(outcome) => {
                    &&& after.failure == m.failure
                    &&& after.results.len() == outcome.results@.len()
                    &&& forall|i: int|
                        0 <= i < outcome.results@.len() ==> #[trigger] after.results[i]
                            == outcome.results@[i]@
                    &&& after.notes == m.notes + app::search_notes(
                        search_run::failure_views(outcome.failures@),
                    )
                },
                Err(error) => after.failure == Some(
                    WorkflowFault::Search(
                        app::search_error_text(search_run::failure_views(error.failures@)),
                    ),
                ),
            }
        }),
{
}

/// A cache that could not be stored is warned of, and one that was stored is not.
pub proof fn lost_caches_are_warned_of()
    ensures
        discovery_run::cache_warning(true) is None,
        discovery_run::cache_warning(false) == Some("proxy health cache could not be updated"@),
{
}

/// The chosen result is announced, and a dry run says that it is one.
pub proof fn dry_runs_say_so()
    ensures
        app::announcement_label(true) == "Selected (dry run):"@,
        app::announcement_label(false) == "Selected:"@,
{
}

// ------------------------------------------------------------------- addresses

/// An address is told without its fragment and query, and without credentials where
/// they are taken off first; where that leaves a question mark or a number sign, or
/// no address, nothing is told.
pub proof fn addresses_are_told_bare(
    href: Seq<char>,
    anonymous: Seq<char>,
    open: Seq<char>,
    whole: Seq<char>,
    bare: Seq<char>,
)
    ensures
        weburl::url_without_fragment(href) == Some(whole) && weburl::url_without_query(whole)
            == Some(bare) ==> {
            &&& !bare.contains('?') && !bare.contains('#') ==> weburl::address(href) == bare
            &&& bare.contains('?') || bare.contains('#') ==> weburl::address(href).len() == 0
        },
        weburl::url_without_username(href) == Some(anonymous) && weburl::url_without_password(
            anonymous,
        ) == Some(open) && weburl::url_without_fragment(open) == Some(whole)
            && weburl::url_without_query(whole) == Some(bare) && !bare.contains('?')
            && !bare.contains('#') ==> match weburl::url_parse(bare) {
            Some(url) => {
                &&& url.username.len() == 0 && url.password is None ==> weburl::public_address(href)
                    == bare
                &&& url.username.len() > 0 || url.password is Some ==> weburl::public_address(
                    href,
                ).len() == 0
            },
            None => weburl::public_address(href).len() == 0,
        },
{
    if let Some(url) = weburl::url_parse(bare) {
        assert(url.username.len() == 0 <==> url.username =~= Seq::empty());
    }
}

} // verus!
