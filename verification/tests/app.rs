use pbtdl::app::{
    announcement, collect_results, complete_results, discovery_diagnostics, discovery_error,
    limit_results, search_diagnostics, search_error, WorkflowError, WorkflowRun,
};
use pbtdl::app_run::{WorkflowAction, WorkflowEvent};
use pbtdl::cli::Cli;
use pbtdl::config::{AppConfig, Positive};
use pbtdl::discovery::{
    failure, normalize_candidate, DiscoveryError, DiscoveryOutcome, FailureReason, FailureStage,
    FormMethod, QueryInput, SearchForm, ValidatedCandidate,
};
use pbtdl::model::{MagnetUri, TorrentResult};
use pbtdl::paths::FilePath;
use pbtdl::search_run::{
    search_failure, SearchError, SearchFailureReason, SearchFailureStage, SearchOutcome,
};
use pbtdl::selection::{format_result, PromptAnswer, SelectionError};
use pbtdl::weburl::Url;

fn torrent(name: &str, hash: &str, seeders: u64) -> TorrentResult {
    TorrentResult {
        name: name.to_string(),
        magnet: MagnetUri::from_str(&format!("magnet:?xt=urn:btih:{hash}&dn={name}"))
            .expect("magnet"),
        seeders: Some(seeders),
        leechers: Some(1),
        size_bytes: Some(1024),
        category: Some("Legal".to_string()),
        source_host: "proxy.example".to_string(),
    }
}

fn candidate() -> ValidatedCandidate {
    let url = Url::parse("https://93.184.216.30/").expect("candidate URL");
    ValidatedCandidate {
        candidate: normalize_candidate(url.clone()).expect("candidate"),
        rendered_url: url.clone(),
        search_form: SearchForm {
            form_index: 0,
            input: QueryInput {
                input_index: 0,
                name: Some("q".to_string()),
                id: None,
            },
            action: url,
            method: FormMethod::Get,
        },
    }
}

fn options(auto: bool, dry_run: bool, results: Option<usize>) -> Cli {
    Cli {
        query: "query".to_string(),
        output: None,
        results: results.map(|count| Positive::new(count).expect("nonzero")),
        auto,
        dry_run,
        headful: false,
        client: None,
        config: None,
    }
}

fn found(candidates: Vec<ValidatedCandidate>) -> DiscoveryOutcome {
    DiscoveryOutcome {
        candidates,
        failures: Vec::new(),
        cache_warning: None,
    }
}

fn searched(results: Vec<TorrentResult>) -> SearchOutcome {
    SearchOutcome {
        candidate: candidate().candidate,
        results,
        failures: Vec::new(),
    }
}

#[test]
fn orchestration_calls_mock_discovery_before_mock_search() {
    let expected = torrent("top", "aaaaaaaaaaaaaaaaaaaaaaaaaaaaaaaaaaaaaaaa", 50);
    let mut calls = Vec::new();
    let mut run = WorkflowRun::run(AppConfig::default(), options(true, true, None));
    run.handle(WorkflowEvent::Launched(Ok(())));
    loop {
        let event = match run.action() {
            WorkflowAction::Discover => {
                calls.push("discover");
                WorkflowEvent::Discovered(Ok(found(vec![candidate()])))
            }
            WorkflowAction::Search { candidates, query } => {
                assert_eq!(candidates, &vec![candidate()]);
                assert_eq!(query, "query");
                calls.push("search");
                WorkflowEvent::Searched(Ok(searched(vec![expected.clone()])))
            }
            _ => break,
        };
        run.handle(event);
    }
    assert!(matches!(run.action(), WorkflowAction::ShutDown));
    run.handle(WorkflowEvent::ShutDown(Ok(())));
    run.handle(WorkflowEvent::Reported);
    run.handle(WorkflowEvent::Answered(PromptAnswer::Failed));
    run.handle(WorkflowEvent::Announced);
    let outcome = run.finish().expect("over").expect("collect results");

    assert_eq!(outcome.selected, expected);
    assert_eq!(calls, ["discover", "search"]);
}

#[test]
fn dry_run_applies_limit_selects_top_and_never_downloads() {
    let cli = options(true, true, Some(1));
    let mut config = AppConfig::default();
    config.apply_cli(&cli).expect("options");
    let top = torrent("top", "aaaaaaaaaaaaaaaaaaaaaaaaaaaaaaaaaaaaaaaa", 100);
    let lower = torrent("lower", "bbbbbbbbbbbbbbbbbbbbbbbbbbbbbbbbbbbbbbbb", 10);

    let limited = limit_results(vec![top.clone(), lower], &config, &cli).expect("results");
    assert_eq!(limited.len(), 1);
    let outcome = complete_results(&limited, &cli, Ok(0)).expect("dry run");

    assert_eq!(outcome.selected, top);
    assert!(!outcome.downloaded);
}

#[test]
fn empty_results_return_clear_error() {
    let cli = options(true, true, None);
    let error = limit_results(Vec::new(), &AppConfig::default(), &cli)
        .expect_err("empty results must fail");

    assert!(error.message().contains("no torrent results"));
    assert_eq!(error.message(), "no torrent results were found for \"query\"");
}

/// A run that stands before the choice.
fn asking(cli: Cli, results: Vec<TorrentResult>) -> WorkflowRun {
    let mut config = AppConfig::default();
    config.apply_cli(&cli).expect("options");
    let mut run = WorkflowRun::run(config, cli);
    assert!(matches!(run.action(), WorkflowAction::Launch));
    run.handle(WorkflowEvent::Launched(Ok(())));
    run.handle(WorkflowEvent::Discovered(Ok(found(vec![candidate()]))));
    run.handle(WorkflowEvent::Searched(Ok(searched(results))));
    run.handle(WorkflowEvent::ShutDown(Ok(())));
    match run.action() {
        WorkflowAction::Report(notes) => assert!(notes.is_empty()),
        _ => panic!("report"),
    }
    run.handle(WorkflowEvent::Reported);
    run
}

fn two() -> Vec<TorrentResult> {
    vec![
        torrent("top", "aaaaaaaaaaaaaaaaaaaaaaaaaaaaaaaaaaaaaaaa", 100),
        torrent("lower", "bbbbbbbbbbbbbbbbbbbbbbbbbbbbbbbbbbbbbbbb", 10),
    ]
}

#[test]
fn the_chosen_result_is_downloaded() {
    let mut run = asking(options(false, false, None), two());
    match run.action() {
        WorkflowAction::Ask(Some(lines)) => {
            assert_eq!(lines.len(), 2);
            assert!(lines[1].contains("lower"));
        }
        _ => panic!("ask"),
    }
    run.handle(WorkflowEvent::Answered(PromptAnswer::Picked(1)));
    match run.action() {
        WorkflowAction::Announce { label, line } => {
            assert_eq!(label, "Selected:");
            assert!(line.contains("lower"));
        }
        _ => panic!("announce"),
    }
    run.handle(WorkflowEvent::Announced);
    match run.action() {
        WorkflowAction::Download { magnet, output_directory } => {
            assert_eq!(magnet, &two()[1].magnet);
            assert_eq!(output_directory, &FilePath::new("."));
        }
        _ => panic!("download"),
    }
    run.handle(WorkflowEvent::Downloaded(Ok(())));
    let outcome = run.finish().expect("over").expect("downloaded");
    assert!(outcome.downloaded);
    assert_eq!(outcome.selected, two()[1]);
}

#[test]
fn an_automatic_choice_asks_nothing() {
    let mut run = asking(options(true, false, None), two());
    assert!(matches!(run.action(), WorkflowAction::Ask(None)));
    run.handle(WorkflowEvent::Answered(PromptAnswer::Cancelled));
    run.handle(WorkflowEvent::Announced);
    match run.action() {
        WorkflowAction::Download { magnet, .. } => assert_eq!(magnet, &two()[0].magnet),
        _ => panic!("download"),
    }
    run.handle(WorkflowEvent::Downloaded(Err("client failed".to_string())));
    let error = run.finish().expect("over").expect_err("failed");
    assert_eq!(error.message(), "client failed");
}

#[test]
fn choices_can_fail() {
    let mut run = asking(options(false, false, None), two());
    run.handle(WorkflowEvent::Answered(PromptAnswer::Cancelled));
    assert_eq!(
        run.finish().expect("over"),
        Err(WorkflowError::Selection(SelectionError::Cancelled))
    );
    let mut run = asking(options(false, false, None), two());
    run.handle(WorkflowEvent::Answered(PromptAnswer::Picked(2)));
    assert_eq!(run.finish().expect("over"), Err(WorkflowError::OutOfRange));
    let run = asking(options(false, false, None), Vec::new());
    assert_eq!(
        run.finish().expect("over"),
        Err(WorkflowError::NoResults { query: "query".to_string() })
    );
    assert_eq!(
        complete_results(&Vec::new(), &options(true, true, None), Ok(0)),
        Err(WorkflowError::NoEligibleResults)
    );
}

#[test]
fn the_browser_is_shut_down_whatever_happens() {
    let mut run = WorkflowRun::run(AppConfig::default(), options(true, true, None));
    run.handle(WorkflowEvent::Launched(Err("no browser".to_string())));
    assert!(matches!(run.action(), WorkflowAction::Finished));
    let error = run.finish().expect("over").expect_err("launch failed");
    assert_eq!(error.message(), "browser stage failed: no browser");

    let mut run = WorkflowRun::run(AppConfig::default(), options(true, true, None));
    run.handle(WorkflowEvent::Launched(Ok(())));
    run.handle(WorkflowEvent::Discovered(Ok(found(Vec::new()))));
    assert!(matches!(run.action(), WorkflowAction::ShutDown));
    run.handle(WorkflowEvent::ShutDown(Err("late".to_string())));
    assert_eq!(run.finish().expect("over"), Err(WorkflowError::NoCandidates));

    let mut run = WorkflowRun::run(AppConfig::default(), options(true, true, None));
    run.handle(WorkflowEvent::Launched(Ok(())));
    run.handle(WorkflowEvent::Discovered(Err(DiscoveryError::NoUsableCandidates {
        failures: Vec::new(),
        cache_warning: None,
    })));
    assert!(matches!(run.action(), WorkflowAction::ShutDown));

    let mut run = WorkflowRun::run(AppConfig::default(), options(true, true, None));
    run.handle(WorkflowEvent::Launched(Ok(())));
    run.handle(WorkflowEvent::Discovered(Ok(found(vec![candidate()]))));
    run.handle(WorkflowEvent::Searched(Err(SearchError { failures: Vec::new() })));
    assert!(matches!(run.action(), WorkflowAction::ShutDown));
    run.handle(WorkflowEvent::ShutDown(Ok(())));
    let error = run.finish().expect("over").expect_err("search failed");
    assert!(error.message().contains("all validated proxy candidates failed"));

    let mut run = WorkflowRun::run(AppConfig::default(), options(true, true, None));
    run.handle(WorkflowEvent::Launched(Ok(())));
    run.handle(WorkflowEvent::Discovered(Ok(found(vec![candidate()]))));
    run.handle(WorkflowEvent::Searched(Ok(searched(two()))));
    run.handle(WorkflowEvent::ShutDown(Err("late".to_string())));
    let error = run.finish().expect("over").expect_err("shutdown failed");
    assert_eq!(error.message(), "browser shutdown failed: late");
}

#[test]
fn diagnostics_name_the_first_causes() {
    let url = Url::parse("https://a.example/").expect("URL");
    let failures = || {
        (0..6)
            .map(|_| failure(FailureStage::CandidateRender, &url, FailureReason::Timeout))
            .collect::<Vec<_>>()
    };
    let mut outcome = found(vec![candidate()]);
    outcome.failures = failures();
    outcome.cache_warning = Some("stale".to_string());
    let notes = discovery_diagnostics(&outcome);
    assert_eq!(notes.len(), 2);
    assert!(notes[0].starts_with("Discovery skipped 6 source/candidate attempt(s): "));
    assert_eq!(notes[0].matches("operation timed out").count(), 3);
    assert_eq!(notes[1], "Cache warning: stale");

    let error = DiscoveryError::NoUsableCandidates {
        failures: failures(),
        cache_warning: None,
    };
    assert_eq!(discovery_error(&error).matches("operation timed out").count(), 5);

    let search_failures = || {
        (0..6)
            .map(|_| {
                search_failure(SearchFailureStage::ResultWait, &url, SearchFailureReason::Timeout)
            })
            .collect::<Vec<_>>()
    };
    let mut outcome = searched(two());
    outcome.failures = search_failures();
    let notes = search_diagnostics(&outcome);
    assert!(notes[0].starts_with("Search skipped 6 candidate(s): "));
    let error = SearchError { failures: search_failures() };
    assert_eq!(search_error(&error).matches("operation timed out").count(), 5);
    assert_eq!(
        search_error(&SearchError { failures: Vec::new() }),
        "all validated proxy candidates failed during rendered search"
    );
}

#[test]
fn searches_need_a_candidate() {
    assert_eq!(collect_results(&vec![candidate()]), Ok(()));
    assert_eq!(collect_results(&Vec::new()), Err(WorkflowError::NoCandidates));
    assert_eq!(
        WorkflowError::NoCandidates.message(),
        "discovery returned no validated candidates"
    );
}

#[test]
fn announcements_tell_dry_runs() {
    let config = AppConfig::default();
    let (label, line) = announcement(&two()[0], &config, true);
    assert_eq!(label, "Selected (dry run):");
    assert_eq!(
        line,
        format_result(&two()[0], config.search.max_title_characters.get())
    );
}
