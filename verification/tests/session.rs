use pbtdl::browser::{
    BrowserError, BrowserSession, ExitAttempt, IpAddress, Lookup, NavigationPolicy, NavigationRun,
    OperationFailure, PageInfo, RenderedDocument, MAX_DOCUMENT_BYTES,
};
use pbtdl::config::BrowserConfig;
use pbtdl::discovery::{FormMethod, QueryInput, SearchForm};
use pbtdl::paths::FilePath;
use pbtdl::session_run::{
    LaunchAction, LaunchEvent, LaunchRun, NavigationAction, NavigationEvent, ShutdownEvent,
    ShutdownStage,
};
use pbtdl::submission_run::{SubmissionAction, SubmissionEvent, SubmissionRun};
use pbtdl::weburl::Url;

const SECOND: u128 = 1_000_000_000;

fn settings() -> BrowserConfig {
    BrowserConfig {
        executable: None,
        headless: true,
        navigation_timeout_seconds: 10,
        selector_timeout_seconds: 5,
        overall_timeout_seconds: 30,
    }
}

fn begin() -> LaunchRun {
    let mut run = BrowserSession::launch(
        settings(),
        NavigationPolicy::production(),
        vec![FilePath::new("/bin")],
    );
    let marks = match run.action() {
        LaunchAction::Probe(files) => files
            .iter()
            .map(|file| *file == FilePath::new("/bin/chromium"))
            .collect(),
        _ => panic!("probe first"),
    };
    run.handle(LaunchEvent::Probed(marks));
    assert!(matches!(run.action(), LaunchAction::MakeProfile));
    run.handle(LaunchEvent::ProfileMade(Ok(FilePath::new("/tmp/profile"))));
    match run.action() {
        LaunchAction::Start(plan) => {
            assert_eq!(plan.executable, FilePath::new("/bin/chromium"));
            assert_eq!(plan.profile_path, FilePath::new("/tmp/profile"));
            assert_eq!(plan.launch_timeout_seconds, 10);
        }
        _ => panic!("start third"),
    }
    run
}

fn session() -> BrowserSession {
    let mut run = begin();
    run.handle(LaunchEvent::Started(Ok(())));
    assert!(matches!(run.action(), LaunchAction::ForbidDownloads));
    run.handle(LaunchEvent::Forbidden(Ok(())));
    assert!(matches!(run.action(), LaunchAction::ClosePages));
    run.handle(LaunchEvent::PagesClosed(vec!["first".to_string()]));
    assert!(matches!(run.action(), LaunchAction::Finished));
    run.finish().expect("over").expect("session")
}

#[test]
fn sessions_start_in_order() {
    let _ = session();
}

#[test]
fn missing_browsers_fail_before_a_profile_is_made() {
    let mut run =
        BrowserSession::launch(settings(), NavigationPolicy::production(), Vec::new());
    run.handle(LaunchEvent::Probed(vec![false; 5]));
    assert!(matches!(run.action(), LaunchAction::Finished));
    assert_eq!(
        run.finish().expect("over").err(),
        Some(BrowserError::MissingExecutable)
    );
}

#[test]
fn failed_starts_are_told_apart() {
    let mut run = begin();
    run.handle(LaunchEvent::Started(Err(OperationFailure::TimedOut)));
    assert_eq!(
        run.finish().expect("over").err(),
        Some(BrowserError::Timeout { stage: "launch" })
    );
    let mut run = begin();
    run.handle(LaunchEvent::Started(Err(OperationFailure::Failed("m".to_string()))));
    assert_eq!(
        run.finish().expect("over").err(),
        Some(BrowserError::Launch("m".to_string()))
    );
}

#[test]
fn a_browser_that_may_download_is_killed() {
    let mut run = begin();
    run.handle(LaunchEvent::Started(Ok(())));
    run.handle(LaunchEvent::Forbidden(Err("no".to_string())));
    assert!(matches!(run.action(), LaunchAction::Kill));
    run.handle(LaunchEvent::Killed);
    assert_eq!(
        run.finish().expect("over").err(),
        Some(BrowserError::Operation { stage: "download policy", message: "no".to_string() })
    );
}

fn public() -> Lookup {
    Lookup::Found(vec![IpAddress::V4([93, 184, 216, 34])])
}

fn active_only() -> NavigationEvent {
    NavigationEvent::Windows(Ok((
        "active".to_string(),
        vec![PageInfo {
            target: "active".to_string(),
            has_opener: false,
            address: Some("https://a.example/".to_string()),
        }],
    )))
}

/// A run that stands at the navigation itself.
fn opening() -> NavigationRun {
    let url = Url::parse("https://a.example/").expect("URL");
    let mut run = session().navigate(&url);
    assert_eq!(run.action(), NavigationAction::TellRunning);
    run.handle(NavigationEvent::Running(true));
    assert_eq!(run.action(), NavigationAction::TellTime);
    run.handle(NavigationEvent::Remaining(30 * SECOND));
    assert_eq!(
        run.action(),
        NavigationAction::Check { url: url.clone(), limit: 10 * SECOND }
    );
    run.handle(NavigationEvent::Looked(public()));
    assert_eq!(run.action(), NavigationAction::Open { limit: 10 * SECOND });
    run.handle(NavigationEvent::Opened(Ok(())));
    assert_eq!(run.action(), NavigationAction::Go { url, limit: 10 * SECOND });
    run
}

fn outcome(run: NavigationRun) -> Result<RenderedDocument, BrowserError> {
    assert_eq!(run.action(), NavigationAction::Finished);
    run.finish().expect("over")
}

#[test]
fn pages_are_opened_and_read() {
    let mut run = opening();
    run.handle(NavigationEvent::Requested {
        redirected: true,
        url: Url::parse("https://b.example/").expect("URL"),
        lookup: public(),
    });
    run.handle(NavigationEvent::Went(Ok(())));
    run.handle(NavigationEvent::Remaining(3 * SECOND));
    assert_eq!(run.action(), NavigationAction::ReadWindows { limit: 3 * SECOND });
    run.handle(active_only());
    run.handle(NavigationEvent::Remaining(2 * SECOND));
    assert_eq!(run.action(), NavigationAction::ReadAddress { limit: 2 * SECOND });
    run.handle(NavigationEvent::Addressed(Ok(Some("https://b.example/x".to_string()))));
    assert!(matches!(run.action(), NavigationAction::Check { .. }));
    run.handle(NavigationEvent::Looked(public()));
    run.handle(NavigationEvent::Remaining(SECOND));
    assert_eq!(run.action(), NavigationAction::ReadContent { limit: SECOND });
    run.handle(NavigationEvent::Contents(Ok("<p>hello</p>".to_string())));
    assert_eq!(run.action(), NavigationAction::TellRunning);
    run.handle(NavigationEvent::Running(true));
    let document = outcome(run).expect("document");
    assert_eq!(document.url.as_str(), "https://b.example/x");
    assert_eq!(document.html, "<p>hello</p>");
}

#[test]
fn more_than_five_redirects_are_refused() {
    let mut run = opening();
    for _ in 0..5 {
        run.handle(NavigationEvent::Requested {
            redirected: true,
            url: Url::parse("https://b.example/").expect("URL"),
            lookup: public(),
        });
        assert!(matches!(run.action(), NavigationAction::Go { .. }));
    }
    run.handle(NavigationEvent::Requested {
        redirected: true,
        url: Url::parse("https://b.example/").expect("URL"),
        lookup: public(),
    });
    assert_eq!(run.action(), NavigationAction::ClosePage);
    run.handle(NavigationEvent::Closed);
    assert_eq!(outcome(run), Err(BrowserError::TooManyRedirects(5)));
}

#[test]
fn a_hop_to_a_private_destination_closes_the_page() {
    let mut run = opening();
    run.handle(NavigationEvent::Requested {
        redirected: true,
        url: Url::parse("http://127.0.0.1/").expect("URL"),
        lookup: Lookup::Failed,
    });
    assert_eq!(run.action(), NavigationAction::ClosePage);
    run.handle(NavigationEvent::Closed);
    assert!(matches!(outcome(run), Err(BrowserError::NavigationRejected(_))));
}

#[test]
fn forbidden_addresses_are_never_opened() {
    let url = Url::parse("http://10.0.0.1/").expect("URL");
    let mut run = session().navigate(&url);
    run.handle(NavigationEvent::Running(true));
    run.handle(NavigationEvent::Remaining(SECOND));
    run.handle(NavigationEvent::Looked(public()));
    assert!(matches!(outcome(run), Err(BrowserError::NavigationRejected(_))));
}

#[test]
fn a_page_that_ends_at_a_forbidden_address_is_not_read() {
    let mut run = opening();
    run.handle(NavigationEvent::Went(Ok(())));
    run.handle(NavigationEvent::Remaining(SECOND));
    run.handle(active_only());
    run.handle(NavigationEvent::Remaining(SECOND));
    run.handle(NavigationEvent::Addressed(Ok(Some("http://localhost/".to_string()))));
    run.handle(NavigationEvent::Looked(public()));
    assert!(matches!(outcome(run), Err(BrowserError::NavigationRejected(_))));
}

#[test]
fn popups_close_the_page() {
    let mut run = opening();
    run.handle(NavigationEvent::Went(Ok(())));
    run.handle(NavigationEvent::Remaining(SECOND));
    run.handle(NavigationEvent::Windows(Ok((
        "active".to_string(),
        vec![PageInfo {
            target: "popup".to_string(),
            has_opener: true,
            address: None,
        }],
    ))));
    assert_eq!(run.action(), NavigationAction::ClosePage);
    run.handle(NavigationEvent::Closed);
    assert_eq!(outcome(run), Err(BrowserError::UnexpectedWindow));
}

#[test]
fn failures_name_their_stage() {
    let url = Url::parse("https://a.example/").expect("URL");

    let mut run = session().navigate(&url);
    run.handle(NavigationEvent::Running(false));
    assert_eq!(outcome(run), Err(BrowserError::PrematureExit));

    let mut run = session().navigate(&url);
    run.handle(NavigationEvent::Running(true));
    run.handle(NavigationEvent::Remaining(0));
    assert_eq!(outcome(run), Err(BrowserError::Timeout { stage: "navigation" }));

    let mut run = session().navigate(&url);
    run.handle(NavigationEvent::Running(true));
    run.handle(NavigationEvent::Remaining(1));
    run.handle(NavigationEvent::Looked(public()));
    run.handle(NavigationEvent::Opened(Err(OperationFailure::TimedOut)));
    assert_eq!(outcome(run), Err(BrowserError::Timeout { stage: "page creation" }));

    let mut run = opening();
    run.handle(NavigationEvent::Went(Err(OperationFailure::Failed("m".to_string()))));
    assert_eq!(run.action(), NavigationAction::ClosePage);
    run.handle(NavigationEvent::Closed);
    assert_eq!(
        outcome(run),
        Err(BrowserError::Operation { stage: "navigation", message: "m".to_string() })
    );
}

#[test]
fn the_active_page_is_read_as_it_stands() {
    let run = session().current_document(false, 0);
    assert_eq!(outcome(run), Err(BrowserError::NoActivePage));

    let mut run = session().current_document(true, 0);
    assert_eq!(run.action(), NavigationAction::TellTime);
    run.handle(NavigationEvent::Remaining(SECOND));
    run.handle(NavigationEvent::Addressed(Ok(Some("https://a.example/r".to_string()))));
    run.handle(NavigationEvent::Remaining(SECOND));
    run.handle(NavigationEvent::Looked(public()));
    run.handle(NavigationEvent::Remaining(SECOND));
    run.handle(NavigationEvent::Contents(Ok("rows".to_string())));
    run.handle(NavigationEvent::Remaining(SECOND));
    run.handle(active_only());
    assert_eq!(outcome(run).expect("document").html, "rows");

    let mut run = session().current_document(true, 0);
    run.handle(NavigationEvent::Remaining(SECOND));
    run.handle(NavigationEvent::Addressed(Err(OperationFailure::Failed("gone".to_string()))));
    assert_eq!(
        outcome(run),
        Err(BrowserError::Operation { stage: "URL read", message: "gone".to_string() })
    );
}

#[test]
fn large_documents_are_refused() {
    let mut run = session().current_document(true, 0);
    run.handle(NavigationEvent::Remaining(SECOND));
    run.handle(NavigationEvent::Addressed(Ok(Some("https://a.example/r".to_string()))));
    run.handle(NavigationEvent::Remaining(SECOND));
    run.handle(NavigationEvent::Looked(public()));
    run.handle(NavigationEvent::Remaining(SECOND));
    run.handle(NavigationEvent::Contents(Ok("x".repeat(MAX_DOCUMENT_BYTES + 1))));
    assert!(matches!(outcome(run), Err(BrowserError::NavigationRejected(_))));
}

#[test]
fn events_that_were_not_asked_for_change_nothing() {
    let mut run = opening();
    run.handle(NavigationEvent::Closed);
    run.handle(NavigationEvent::Looked(Lookup::Failed));
    run.handle(NavigationEvent::Remaining(0));
    assert!(matches!(run.action(), NavigationAction::Go { .. }));
    assert_eq!(run.finish(), None);
}

/// Ends a session; tells whether the browser was killed.
fn end(asked: ExitAttempt, waited: ExitAttempt) -> (bool, Result<(), BrowserError>) {
    let mut run = session().shutdown();
    let mut asked = Some(asked);
    let mut waited = Some(waited);
    let mut killed = false;
    let mut removed = false;
    loop {
        let event = match run.action() {
            ShutdownStage::ClosePage => ShutdownEvent::PageClosed,
            ShutdownStage::Close => ShutdownEvent::Asked(asked.take().expect("once")),
            ShutdownStage::Wait => ShutdownEvent::Waited(waited.take().expect("once")),
            ShutdownStage::Kill => {
                killed = true;
                ShutdownEvent::Killed
            }
            ShutdownStage::StopEvents => ShutdownEvent::EventsStopped,
            ShutdownStage::RemoveProfile => {
                removed = true;
                ShutdownEvent::ProfileRemoved
            }
            ShutdownStage::Done => break,
        };
        run.handle(event);
    }
    assert!(removed);
    (killed, run.finish())
}

#[test]
fn shutdowns_kill_what_does_not_end() {
    let failed = || ExitAttempt::Failed("m".to_string());
    let told = || BrowserError::Operation { stage: "shutdown", message: "m".to_string() };
    assert_eq!(end(ExitAttempt::Done, ExitAttempt::Done), (false, Ok(())));
    assert_eq!(
        end(ExitAttempt::TimedOut, ExitAttempt::Done),
        (true, Err(BrowserError::Timeout { stage: "shutdown" }))
    );
    assert_eq!(end(failed(), ExitAttempt::Done), (true, Err(told())));
    assert_eq!(end(ExitAttempt::Done, failed()), (false, Err(told())));
    assert_eq!(
        end(ExitAttempt::Done, ExitAttempt::TimedOut),
        (true, Err(BrowserError::Timeout { stage: "shutdown" }))
    );
}

#[test]
fn waiting_documents_are_judged_before_the_active_page_is_read() {
    let ask = |address: &str| NavigationEvent::Requested {
        redirected: true,
        url: Url::parse(address).expect("URL"),
        lookup: public(),
    };
    let mut run = session().current_document(true, 4);
    run.handle(ask("https://b.example/"));
    assert_eq!(run.hops(), 5);
    assert_eq!(run.action(), NavigationAction::TellTime);
    run.handle(ask("https://b.example/"));
    assert_eq!(run.action(), NavigationAction::ClosePage);
    run.handle(NavigationEvent::Closed);
    assert_eq!(outcome(run), Err(BrowserError::TooManyRedirects(5)));

    let mut run = session().current_document(true, 0);
    run.handle(ask("http://240.0.0.1/"));
    assert_eq!(run.action(), NavigationAction::ClosePage);

    let mut run = session().current_document(true, 0);
    run.handle(NavigationEvent::Remaining(SECOND));
    run.handle(ask("http://127.0.0.1/"));
    assert_eq!(run.action(), NavigationAction::ReadAddress { limit: SECOND });
    assert_eq!(run.hops(), 0);
}

fn form() -> SearchForm {
    SearchForm {
        form_index: 0,
        input: QueryInput { input_index: 1, name: Some("q".to_string()), id: None },
        action: Url::parse("https://a.example/search").expect("URL"),
        method: FormMethod::Get,
    }
}

fn submitting() -> SubmissionRun {
    let mut run = session().submit(true, &form(), "ubuntu");
    assert_eq!(run.action(), SubmissionAction::TellTime);
    run.handle(SubmissionEvent::Remaining(30 * SECOND));
    assert_eq!(
        run.action(),
        SubmissionAction::Submit {
            form: form(),
            query: "ubuntu".to_string(),
            limit: 10 * SECOND
        }
    );
    run
}

fn ask(redirected: bool, address: &str) -> SubmissionEvent {
    SubmissionEvent::Requested {
        redirected,
        url: Url::parse(address).expect("URL"),
        lookup: public(),
    }
}

fn submitted(run: SubmissionRun) -> Result<(), BrowserError> {
    assert_eq!(run.action(), SubmissionAction::Finished);
    run.finish().expect("over")
}

#[test]
fn queries_are_sent_and_their_pages_loaded() {
    let mut run = submitting();
    run.handle(ask(false, "https://a.example/search?q=ubuntu"));
    run.handle(SubmissionEvent::Sent(Ok(true)));
    assert_eq!(run.action(), SubmissionAction::Load { limit: 10 * SECOND });
    run.handle(ask(true, "https://a.example/results"));
    assert_eq!(run.hops(), 1);
    run.handle(SubmissionEvent::Loaded(Ok(())));
    assert_eq!(submitted(run), Ok(()));
}

#[test]
fn submissions_may_not_leave_for_private_destinations() {
    for address in ["http://127.0.0.1/", "http://240.0.0.1/", "file:///etc/passwd"] {
        let mut run = submitting();
        run.handle(SubmissionEvent::Sent(Ok(true)));
        run.handle(ask(true, address));
        assert_eq!(run.action(), SubmissionAction::ClosePage, "{address}");
        run.handle(SubmissionEvent::Loaded(Ok(())));
        assert_eq!(run.action(), SubmissionAction::ClosePage);
        run.handle(SubmissionEvent::Closed);
        assert!(matches!(submitted(run), Err(BrowserError::NavigationRejected(_))));
    }
}

#[test]
fn submissions_take_at_most_five_redirects() {
    let mut run = submitting();
    for _ in 0..5 {
        run.handle(ask(true, "https://a.example/"));
    }
    run.handle(SubmissionEvent::Sent(Ok(true)));
    run.handle(ask(false, "https://a.example/"));
    assert_eq!(run.action(), SubmissionAction::Load { limit: 10 * SECOND });
    run.handle(ask(true, "https://a.example/"));
    run.handle(SubmissionEvent::Closed);
    assert_eq!(submitted(run), Err(BrowserError::TooManyRedirects(5)));
}

#[test]
fn failed_submissions_name_their_cause() {
    let run = session().submit(false, &form(), "ubuntu");
    assert_eq!(submitted(run), Err(BrowserError::NoActivePage));
    let failed = |message: &str| {
        Err(BrowserError::Operation { stage: "form submission", message: message.to_string() })
    };
    let run = session().submit(true, &form(), &"x".repeat(513));
    assert_eq!(submitted(run), failed("query exceeds 512 characters or 2 KiB"));
    let mut run = session().submit(true, &form(), "ubuntu");
    run.handle(SubmissionEvent::Remaining(0));
    assert_eq!(submitted(run), Err(BrowserError::Timeout { stage: "form submission" }));
    let mut run = submitting();
    run.handle(SubmissionEvent::Sent(Ok(false)));
    assert_eq!(submitted(run), failed("search form is no longer there"));
    let mut run = submitting();
    run.handle(SubmissionEvent::Sent(Err(OperationFailure::Failed("m".to_string()))));
    assert_eq!(submitted(run), failed("m"));
    let mut run = submitting();
    run.handle(SubmissionEvent::Sent(Ok(true)));
    run.handle(SubmissionEvent::Loaded(Err(OperationFailure::TimedOut)));
    assert_eq!(submitted(run), Err(BrowserError::Timeout { stage: "form submission" }));
}
