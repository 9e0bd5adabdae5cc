//! The workflow: what discovery, search, selection and download come to.

use crate::cli::Cli;
use crate::config::AppConfig;
use crate::discovery;
use crate::discovery::{DiscoveryError, DiscoveryFailure, DiscoveryOutcome, ValidatedCandidate};
use crate::model;
use crate::model::TorrentResult;
use crate::search::{SearchError, SearchFailure, SearchOutcome};
use crate::search_run;
use crate::selection;
use crate::selection::{format_result, SelectionError};
use crate::text;
use crate::text::{chars_of, decimal_string, join_first};
use vstd::prelude::*;

pub use crate::app_run::WorkflowRun;

verus! {

// --------------------------------------------------------------------- errors

/// Why the workflow ended without a result.
#[derive(Debug, PartialEq, Eq)]
pub enum WorkflowError {
    /// There is no browser session.
    Browser(String),
    /// Discovery failed.
    Discovery(String),
    NoCandidates,
    /// The search failed.
    Search(String),
    /// The browser session did not end as it should.
    Shutdown(String),
    NoResults { query: String },
    NoEligibleResults,
    Selection(SelectionError),
    OutOfRange,
    /// The download failed.
    Download(String),
}

/// A workflow error by its values.
#[verifier::ext_equal]
pub enum WorkflowFault {
    Browser(Seq<char>),
    Discovery(Seq<char>),
    NoCandidates,
    Search(Seq<char>),
    Shutdown(Seq<char>),
    NoResults(Seq<char>),
    NoEligibleResults,
    Selection(SelectionError),
    OutOfRange,
    Download(Seq<char>),
}

impl View for WorkflowError {
    type V = WorkflowFault;

    open spec fn view(&self) -> WorkflowFault {
        match self {
            WorkflowError::Browser(message) => WorkflowFault::Browser(message@),
            WorkflowError::Discovery(message) => WorkflowFault::Discovery(message@),
            WorkflowError::NoCandidates => WorkflowFault::NoCandidates,
            WorkflowError::Search(message) => WorkflowFault::Search(message@),
            WorkflowError::Shutdown(message) => WorkflowFault::Shutdown(message@),
            WorkflowError::NoResults { query } => WorkflowFault::NoResults(query@),
            WorkflowError::NoEligibleResults => WorkflowFault::NoEligibleResults,
            WorkflowError::Selection(error) => WorkflowFault::Selection(*error),
            WorkflowError::OutOfRange => WorkflowFault::OutOfRange,
            WorkflowError::Download(message) => WorkflowFault::Download(message@),
        }
    }
}

/// What `{:?}` makes of a text.
pub uninterp spec fn quoted(value: Seq<char>) -> Seq<char>;

/// The `Debug` output of std for a string: the text in double quotes with what
/// cannot stand there escaped. Which characters that are is left to std.
#[verifier::external_body]
fn quote(value: &str) -> (r: String)
    ensures
        r@ == quoted(value@),
{
    format!("{:?}", value)
}

/// What each error says. What happened to the browser stands behind the stage at
/// which it happened.
pub open spec fn workflow_fault_text(fault: WorkflowFault) -> Seq<char> {
    match fault {
        WorkflowFault::Browser(message) => "browser stage failed: "@ + message,
        WorkflowFault::Discovery(message) => message,
        WorkflowFault::Search(message) => message,
        WorkflowFault::Shutdown(message) => "browser shutdown failed: "@ + message,
        WorkflowFault::Download(message) => message,
        WorkflowFault::NoCandidates => "discovery returned no validated candidates"@,
        WorkflowFault::NoResults(query) => "no torrent results were found for "@ + quoted(query),
        WorkflowFault::NoEligibleResults =>
            "no eligible torrent results remain after applying the result limit"@,
        WorkflowFault::Selection(error) => selection::selection_error_text(error),
        WorkflowFault::OutOfRange => "selection returned an out-of-range result index"@,
    }
}

impl WorkflowError {
    /// The error in words.
    pub fn message(&self) -> (r: String)
        ensures
            r@ == workflow_fault_text(self@),
    {
        match self {
            WorkflowError::Browser(message) => {
                let mut out = "browser stage failed: ".to_string();
                out.append(message.as_str());
                out
            },
            WorkflowError::Discovery(message) => message.clone(),
            WorkflowError::Search(message) => message.clone(),
            WorkflowError::Shutdown(message) => {
                let mut out = "browser shutdown failed: ".to_string();
                out.append(message.as_str());
                out
            },
            WorkflowError::Download(message) => message.clone(),
            WorkflowError::NoCandidates => "discovery returned no validated candidates".to_string(),
            WorkflowError::NoResults { query } => {
                let mut out = "no torrent results were found for ".to_string();
                let shown = quote(query.as_str());
                out.append(shown.as_str());
                out
            },
            WorkflowError::NoEligibleResults => {
                "no eligible torrent results remain after applying the result limit".to_string()
            },
            WorkflowError::Selection(error) => error.message(),
            WorkflowError::OutOfRange => {
                "selection returned an out-of-range result index".to_string()
            },
        }
    }
}

// ------------------------------------------------------------------- workflow

/// Whether the search may start after discovery: there must be a candidate.
pub fn collect_results(candidates: &Vec<ValidatedCandidate>) -> (r: Result<(), WorkflowError>)
    ensures
        match r {
            Ok(_) => candidates@.len() > 0,
            Err(error) => candidates@.len() == 0 && error@ == WorkflowFault::NoCandidates,
        },
{
    if candidates.len() == 0 {
        Err(WorkflowError::NoCandidates)
    } else {
        Ok(())
    }
}

/// The results from which one is chosen: the first ones, as many as are to be
/// shown.
pub fn limit_results(results: Vec<TorrentResult>, config: &AppConfig, cli: &Cli) -> (r: Result<
    Vec<TorrentResult>,
    WorkflowError,
>)
    ensures
        match r {
            Ok(limited) => results@.len() > 0 && limited@.len() > 0 && model::result_views(limited@)
                == discovery::bounded(
                model::result_views(results@),
                config.search.result_limit@ as int,
            ),
            Err(error) => results@.len() == 0 && error@ == WorkflowFault::NoResults(cli.query@),
        },
{
    if results.len() == 0 {
        return Err(WorkflowError::NoResults { query: cli.query.clone() });
    }
    let ghost all = model::result_views(results@);
    let limit = config.search.result_limit.get();
    let mut limited = results;
    limited.truncate(limit);
    proof {
        assert(model::result_views(limited@) =~= discovery::bounded(all, limit as int));
    }
    Ok(limited)
}

/// A chosen result, and whether it is to be downloaded.
#[derive(Debug, PartialEq, Eq)]
pub struct RunOutcome {
    pub selected: TorrentResult,
    pub downloaded: bool,
}

/// What a choice among results comes to: the chosen one, and whether it is to be
/// downloaded.
pub open spec fn completion(
    limited: Seq<model::TorrentModel>,
    dry_run: bool,
    chosen: Result<usize, SelectionError>,
) -> Result<(model::TorrentModel, bool), WorkflowFault> {
    if limited.len() == 0 {
        Err(WorkflowFault::NoEligibleResults)
    } else {
        match chosen {
            Err(error) => Err(WorkflowFault::Selection(error)),
            Ok(index) => if index >= limited.len() {
                Err(WorkflowFault::OutOfRange)
            } else {
                Ok((limited[index as int], !dry_run))
            },
        }
    }
}

/// What the choice comes to: the chosen result, which is downloaded unless the
/// run is dry.
pub fn complete_results(
    limited: &Vec<TorrentResult>,
    cli: &Cli,
    chosen: Result<usize, SelectionError>,
) -> (r: Result<RunOutcome, WorkflowError>)
    ensures
        match (r, completion(model::result_views(limited@), cli.dry_run, chosen)) {
            (Ok(outcome), Ok(expected)) => outcome.selected@ == expected.0 && outcome.downloaded
                == expected.1,
            (Err(error), Err(fault)) => error@ == fault,
            _ => false,
        },
{
    if limited.len() == 0 {
        return Err(WorkflowError::NoEligibleResults);
    }
    let index = match chosen {
        Ok(index) => index,
        Err(error) => {
            return Err(WorkflowError::Selection(error));
        },
    };
    if index >= limited.len() {
        return Err(WorkflowError::OutOfRange);
    }
    Ok(RunOutcome { selected: limited[index].clone(), downloaded: !cli.dry_run })
}

/// What stands before the chosen result.
pub open spec fn announcement_label(dry_run: bool) -> Seq<char> {
    if dry_run {
        "Selected (dry run):"@
    } else {
        "Selected:"@
    }
}

/// What is said of the chosen result: a label, and the result as it is shown.
pub fn announcement(selected: &TorrentResult, config: &AppConfig, dry_run: bool) -> (r: (
    &'static str,
    String,
))
    ensures
        r.0@ == announcement_label(dry_run),
        r.1@ == selection::result_text(
            selected@,
            config.search.max_title_characters@ as usize,
        ),
{
    let label = if dry_run {
        "Selected (dry run):"
    } else {
        "Selected:"
    };
    (label, format_result(selected, config.search.max_title_characters.get()))
}

// ----------------------------------------------------------------- diagnostics

/// The first failures of discovery in words, at most `limit`.
pub open spec fn discovery_summary(failures: Seq<discovery::FailureModel>, limit: int) -> Seq<char> {
    text::joined(
        discovery::bounded(
            Seq::new(failures.len(), |i: int| discovery::failure_text(failures[i])),
            limit,
        ),
        "; "@,
    )
}

/// The first failures of a search in words, at most `limit`.
pub open spec fn search_summary(
    failures: Seq<search_run::SearchFailureModel>,
    limit: int,
) -> Seq<char> {
    text::joined(
        discovery::bounded(
            Seq::new(failures.len(), |i: int| search_run::failure_text(failures[i])),
            limit,
        ),
        "; "@,
    )
}

fn summarize_discovery(failures: &Vec<DiscoveryFailure>, limit: usize) -> (r: String)
    ensures
        r@ == discovery_summary(discovery::failure_views(failures@), limit as int),
{
    let ghost all = discovery::failure_views(failures@);
    let mut lines: Vec<String> = Vec::new();
    let mut i: usize = 0;
    while i < failures.len()
        invariant
            i <= failures@.len(),
            all == discovery::failure_views(failures@),
            lines@.len() == i,
            forall|j: int| 0 <= j < i ==> (#[trigger] lines@[j])@ == discovery::failure_text(all[j]),
        decreases failures@.len() - i,
    {
        lines.push(failures[i].message());
        i = i + 1;
    }
    proof {
        assert(text::views(lines@) =~= Seq::new(
            all.len(),
            |k: int| discovery::failure_text(all[k]),
        ));
    }
    join_first(&lines, limit, "; ")
}

fn summarize_search(failures: &Vec<SearchFailure>, limit: usize) -> (r: String)
    ensures
        r@ == search_summary(search_run::failure_views(failures@), limit as int),
{
    let ghost all = search_run::failure_views(failures@);
    let mut lines: Vec<String> = Vec::new();
    let mut i: usize = 0;
    while i < failures.len()
        invariant
            i <= failures@.len(),
            all == search_run::failure_views(failures@),
            lines@.len() == i,
            forall|j: int|
                0 <= j < i ==> (#[trigger] lines@[j])@ == search_run::failure_text(all[j]),
        decreases failures@.len() - i,
    {
        lines.push(failures[i].message());
        i = i + 1;
    }
    proof {
        assert(text::views(lines@) =~= Seq::new(
            all.len(),
            |k: int| search_run::failure_text(all[k]),
        ));
    }
    join_first(&lines, limit, "; ")
}

/// An error with its causes, where there are any.
pub open spec fn with_causes(error: Seq<char>, causes: Seq<char>) -> Seq<char> {
    if causes.len() == 0 {
        error
    } else {
        error + ": "@ + causes
    }
}

fn add_causes(error: String, causes: String) -> (r: String)
    ensures
        r@ == with_causes(error@, causes@),
{
    if chars_of(causes.as_str()).len() == 0 {
        return error;
    }
    let mut out = error;
    out.append(": ");
    out.append(causes.as_str());
    out
}

/// What is said when discovery failed: the error and the first five causes.
pub open spec fn discovery_error_text(failures: Seq<discovery::FailureModel>) -> Seq<char> {
    with_causes(
        "no usable Pirate Bay-compatible proxy candidate was found"@,
        discovery_summary(failures, 5),
    )
}

/// What is said when discovery failed: the error and the first five causes.
pub fn discovery_error(error: &DiscoveryError) -> (r: String)
    ensures
        r@ == discovery_error_text(discovery::failure_views(error->failures@)),
{
    let causes = summarize_discovery(error.failures(), 5);
    add_causes(error.message(), causes)
}

/// What is said when a search failed: the error and the first five causes.
pub open spec fn search_error_text(failures: Seq<search_run::SearchFailureModel>) -> Seq<char> {
    with_causes(
        "all validated proxy candidates failed during rendered search"@,
        search_summary(failures, 5),
    )
}

/// What is said when a search failed: the error and the first five causes.
pub fn search_error(error: &SearchError) -> (r: String)
    ensures
        r@ == search_error_text(search_run::failure_views(error.failures@)),
{
    let causes = summarize_search(&error.failures, 5);
    add_causes(error.message(), causes)
}

/// What is said of attempts that were skipped.
pub open spec fn skipped_text(
    front: Seq<char>,
    count: nat,
    middle: Seq<char>,
    causes: Seq<char>,
) -> Seq<char> {
    front + text::decimal_text(count) + middle + causes
}

/// What is said of a discovery that succeeded: how much was skipped and the
/// first three causes, and whether the cache could be stored.
pub open spec fn discovery_notes(
    failures: Seq<discovery::FailureModel>,
    cache_warning: Option<Seq<char>>,
) -> Seq<Seq<char>> {
    let skipped = if failures.len() == 0 {
        Seq::empty()
    } else {
        seq![
            skipped_text(
                "Discovery skipped "@,
                failures.len(),
                " source/candidate attempt(s): "@,
                discovery_summary(failures, 3),
            ),
        ]
    };
    match cache_warning {
        Some(warning) => skipped.push("Cache warning: "@ + warning),
        None => skipped,
    }
}

/// What is said of a search that succeeded: how much was skipped and the first
/// three causes.
pub open spec fn search_notes(failures: Seq<search_run::SearchFailureModel>) -> Seq<Seq<char>> {
    if failures.len() == 0 {
        Seq::empty()
    } else {
        seq![
            skipped_text(
                "Search skipped "@,
                failures.len(),
                " candidate(s): "@,
                search_summary(failures, 3),
            ),
        ]
    }
}

/// The diagnostics of a discovery that succeeded.
pub fn discovery_diagnostics(outcome: &DiscoveryOutcome) -> (r: Vec<String>)
    ensures
        text::views(r@) == discovery_notes(
            discovery::failure_views(outcome.failures@),
            text::opt_view(outcome.cache_warning),
        ),
{
    let mut out: Vec<String> = Vec::new();
    proof {
        assert(text::views(out@) =~= Seq::empty());
    }
    if outcome.failures.len() > 0 {
        let mut line = "Discovery skipped ".to_string();
        let count = decimal_string(outcome.failures.len() as u64);
        line.append(count.as_str());
        line.append(" source/candidate attempt(s): ");
        let causes = summarize_discovery(&outcome.failures, 3);
        line.append(causes.as_str());
        let ghost words = line@;
        out.push(line);
        proof {
            assert(text::views(out@) =~= seq![words]);
        }
    }
    if let Some(warning) = &outcome.cache_warning {
        let ghost before = text::views(out@);
        let mut line = "Cache warning: ".to_string();
        line.append(warning.as_str());
        let ghost words = line@;
        out.push(line);
        proof {
            assert(text::views(out@) =~= before.push(words));
        }
    }
    out
}

/// The diagnostics of a search that succeeded.
pub fn search_diagnostics(outcome: &SearchOutcome) -> (r: Vec<String>)
    ensures
        text::views(r@) == search_notes(search_run::failure_views(outcome.failures@)),
{
    let mut out: Vec<String> = Vec::new();
    proof {
        assert(text::views(out@) =~= Seq::empty());
    }
    if outcome.failures.len() > 0 {
        let mut line = "Search skipped ".to_string();
        let count = decimal_string(outcome.failures.len() as u64);
        line.append(count.as_str());
        line.append(" candidate(s): ");
        let causes = summarize_search(&outcome.failures, 3);
        line.append(causes.as_str());
        let ghost words = line@;
        out.push(line);
        proof {
            assert(text::views(out@) =~= seq![words]);
        }
    }
    out
}

} // verus!
