use pbtdl::browser::{BrowserError, RenderedDocument};
use pbtdl::discovery::{normalize_candidate, FormMethod, QueryInput, SearchForm, ValidatedCandidate};
use pbtdl::dom::{matches_among, select_first, select_within};
use pbtdl::model::{MagnetUri, TorrentResult};
use pbtdl::search::{
    normalize_results, parse_count, parse_rendered_results, parse_size, parse_size_value,
    recognize_result_state, ResultState, HARD_MAX_TITLE_CHARACTERS,
};
use pbtdl::search_run::{
    PageRead, SearchAction, SearchEngine, SearchError, SearchEvent, SearchFailureReason,
    SearchFailureStage, SearchOutcome,
};
use pbtdl::weburl::Url;

const HASH_ONE: &str = "0123456789abcdef0123456789abcdef01234567";

const CLASSIC: &str = r#"<!doctype html><html><body><table id="searchResult">
<tr class="header"><th>Type</th><th>Name</th><th>SE</th><th>LE</th></tr>
<tr>
  <td><a href="/browse/300">Applications</a></td>
  <td><div class="detName"><a class="detLink" href="/torrent/1/ubuntu">Ubuntu 🐧 résumé</a></div>
    <a href="magnet:?xt=urn:btih:0123456789abcdef0123456789abcdef01234567&amp;dn=Ubuntu">magnet</a>
    <font class="detDesc">Uploaded today, Size 1.5 GiB, ULed by tester</font></td>
  <td>1,234</td>
  <td>56</td>
</tr></table></body></html>"#;

const MODERN: &str = r#"<!doctype html><html><body><ol id="torrents">
<li data-seeders="200"><span class="item-name">Legal image</span>
  <a href="magnet:?xt=urn:btih:89abcdef0123456789abcdef0123456789abcdef">magnet</a>
  <span class="item-size">700 MB</span></li></ol></body></html>"#;

const GENERIC: &str = r#"<!doctype html><html><body><article><h2 class="name">Document</h2>
  <a href="magnet:?xt=urn:btih:fedcba9876543210fedcba9876543210fedcba98">magnet</a>
</article></body></html>"#;

const MALFORMED: &str = r#"<!doctype html><html><body><table id="searchResult">
<tr><td><a class="detLink">one</a><a href="magnet:?xt=urn:btih:short">magnet</a></td></tr>
<tr><td><a class="detLink">two</a><a href="https://example.test/magnet:?xt=urn:btih:0123456789abcdef0123456789abcdef01234567">magnet</a></td></tr>
<tr><td><a class="detLink">three</a><a href="magnet:?dn=no-identity">magnet</a></td></tr>
</table></body></html>"#;

const ZERO: &str = r#"<!doctype html><html><body><h1>Search</h1><p>No results found for that query.</p></body></html>"#;

const VALID_CANDIDATE: &str = r#"<!doctype html><html><head><title>Torrent index</title></head><body>
<nav><a href="/browse">Browse torrents</a><a href="/recent">Recent</a></nav>
<form id="searchform" action="/search" method="get"><input type="search" name="q" placeholder="Search"></form>
</body></html>"#;

fn document(url: &str, html: &str) -> RenderedDocument {
    RenderedDocument {
        url: Url::parse(url).expect("fixture URL"),
        html: html.to_string(),
    }
}

#[test]
fn parses_classic_modern_and_generic_rendered_shapes() {
    let classic = parse_rendered_results(&document("https://proxy.example/search?q=test", CLASSIC));
    assert_eq!(classic.len(), 1);
    assert_eq!(classic[0].name, "Ubuntu 🐧 résumé");
    assert_eq!(classic[0].seeders, Some(1_234));
    assert_eq!(classic[0].leechers, Some(56));
    assert_eq!(classic[0].size_bytes, Some(1_610_612_736));
    assert_eq!(classic[0].category.as_deref(), Some("Applications"));

    let modern = parse_rendered_results(&document("https://proxy.example/search", MODERN));
    assert_eq!(modern.len(), 1);
    assert_eq!(modern[0].seeders, Some(200));
    assert_eq!(modern[0].leechers, None);
    assert_eq!(modern[0].size_bytes, Some(734_003_200));

    let generic = parse_rendered_results(&document("https://proxy.example/find", GENERIC));
    assert_eq!(generic.len(), 1);
    assert_eq!(generic[0].source_host, "proxy.example");
}

#[test]
fn accepts_base32_hashes_and_deduplicates_canonical_identity() {
    let bytes: Vec<u8> = (0..HASH_ONE.len())
        .step_by(2)
        .map(|index| u8::from_str_radix(&HASH_ONE[index..index + 2], 16).expect("hex"))
        .collect();
    let base32 = data_encoding::BASE32_NOPAD.encode(&bytes);
    let html = format!(
        r#"<table id="searchResult">
              <tr data-seeders="10"><td><a class="detLink">hex</a><a href="magnet:?xt=urn:btih:{HASH_ONE}&dn=hex">magnet</a></td></tr>
              <tr data-seeders="50"><td><a class="detLink">base32</a><a href="magnet:?xt=urn:btih:{base32}&dn=base32">magnet</a></td></tr>
            </table>"#
    );

    let results = parse_rendered_results(&document("https://proxy.example/search", &html));

    assert_eq!(results.len(), 1);
    assert_eq!(results[0].name, "base32");
    assert_eq!(results[0].info_hash().as_str(), HASH_ONE);
}

#[test]
fn rejects_invalid_and_misleading_magnet_like_links() {
    let results = parse_rendered_results(&document("https://proxy.example/search", MALFORMED));

    assert!(results.is_empty());
}

#[test]
fn hostile_titles_are_inert_and_bounded() {
    let oversized = format!("safe\u{1b}[31m\u{202e}{}", "x".repeat(2_000));
    let html = format!(
        r#"<table id="searchResult"><tr><td><a class="detLink">{oversized}</a><a href="magnet:?xt=urn:btih:{HASH_ONE}">magnet</a></td></tr></table>"#
    );

    let results = parse_rendered_results(&document("https://proxy.example/search", &html));

    assert_eq!(results.len(), 1);
    assert!(!results[0].name.contains('\u{1b}'));
    assert!(!results[0].name.contains('\u{202e}'));
    assert_eq!(results[0].name.chars().count(), HARD_MAX_TITLE_CHARACTERS);
}

#[test]
fn parses_validated_counts_and_sizes_without_coercing_malformed_values() {
    assert_eq!(parse_count("1,234"), Some(1_234));
    assert_eq!(parse_count("unknown"), None);
    assert_eq!(parse_count("-1"), None);
    assert_eq!(parse_size("1.5 GiB"), Some(1_610_612_736));
    assert_eq!(parse_size("700 MB"), Some(734_003_200));
    assert_eq!(parse_size("4096"), Some(4_096));
    assert_eq!(parse_size("many GB"), None);
}

#[test]
fn recognizes_zero_results_without_inventing_rows() {
    let page = document("https://proxy.example/search", ZERO);
    assert_eq!(recognize_result_state(&page), ResultState::Empty);
    assert!(parse_rendered_results(&page).is_empty());
}

fn make(name: &str, hash: &str) -> TorrentResult {
    TorrentResult {
        name: name.to_string(),
        magnet: MagnetUri::from_str(&format!("magnet:?xt=urn:btih:{hash}&dn={name}"))
            .expect("magnet"),
        seeders: Some(10),
        leechers: None,
        size_bytes: None,
        category: None,
        source_host: "proxy.example".to_string(),
    }
}

#[test]
fn tie_ordering_is_deterministic() {
    let results = normalize_results(vec![
        make("Zulu", "bbbbbbbbbbbbbbbbbbbbbbbbbbbbbbbbbbbbbbbb"),
        make("alpha", "aaaaaaaaaaaaaaaaaaaaaaaaaaaaaaaaaaaaaaaa"),
    ]);

    assert_eq!(results[0].name, "alpha");
    assert_eq!(results[1].name, "Zulu");
}

fn candidate(url: &str) -> ValidatedCandidate {
    let url = Url::parse(url).expect("candidate URL");
    ValidatedCandidate {
        candidate: normalize_candidate(url.clone()).expect("normalized candidate"),
        rendered_url: url.clone(),
        search_form: SearchForm {
            form_index: 0,
            input: QueryInput {
                input_index: 0,
                name: Some("q".to_string()),
                id: None,
            },
            action: url.join("search").expect("search action"),
            method: FormMethod::Get,
        },
    }
}

const SECOND: u128 = 1_000_000_000;
const MILLISECOND: u128 = 1_000_000;

#[test]
fn result_wait_retries_transient_document_context_changes() {
    let engine = SearchEngine::with_poll_interval(SECOND, MILLISECOND);
    let mut run = engine.search_candidates(&vec![candidate("https://93.184.216.20/")], "query");
    let mut now: u128 = 0;
    let mut calls = 0;
    loop {
        match run.action() {
            SearchAction::Open(url) => run.handle(SearchEvent::Opened(Ok(document(
                url.as_str(),
                VALID_CANDIDATE,
            )))),
            SearchAction::Submit { .. } => {
                run.handle(SearchEvent::Submitted { now, result: Ok(()) })
            }
            SearchAction::TellTime => run.handle(SearchEvent::Time { now }),
            SearchAction::Read { limit } => {
                assert!(limit <= SECOND);
                calls += 1;
                let page = if calls == 1 {
                    PageRead::Failed(BrowserError::Operation {
                        stage: "document read",
                        message: "navigation context changed".to_string(),
                    })
                } else {
                    PageRead::Document(document("https://proxy.example/search", ZERO))
                };
                run.handle(SearchEvent::Read { now, page });
            }
            SearchAction::Sleep { duration } => {
                assert_eq!(duration, MILLISECOND);
                now += duration;
                run.handle(SearchEvent::Slept);
            }
            SearchAction::Finished => break,
        }
    }

    let outcome = run.finish().expect("retry transition");
    assert!(outcome.results.is_empty());
    assert_eq!(calls, 2);
}

/// Runs a search against pages that are given for each candidate.
fn search(
    engine: &SearchEngine,
    candidates: &Vec<ValidatedCandidate>,
    query: &str,
    opened: &[(&str, &str)],
    submitted: &[(&str, &str)],
) -> (Result<SearchOutcome, SearchError>, Vec<String>) {
    let mut run = engine.search_candidates(candidates, query);
    let mut queries = Vec::new();
    let mut active = String::new();
    let mut now: u128 = 0;
    loop {
        match run.action() {
            SearchAction::Open(url) => {
                active = url.as_str().to_string();
                let page = opened.iter().find(|(address, _)| *address == active);
                run.handle(SearchEvent::Opened(match page {
                    Some((address, html)) => Ok(document(address, html)),
                    None => Err(BrowserError::Operation {
                        stage: "mock open",
                        message: "missing page".to_string(),
                    }),
                }));
            }
            SearchAction::Submit { form, query } => {
                assert_eq!(form.input.name.as_deref(), Some("q"));
                queries.push(query);
                run.handle(SearchEvent::Submitted { now, result: Ok(()) });
            }
            SearchAction::TellTime => run.handle(SearchEvent::Time { now }),
            SearchAction::Read { .. } => {
                let page = submitted.iter().find(|(address, _)| *address == active);
                run.handle(SearchEvent::Read {
                    now,
                    page: match page {
                        Some((address, html)) => PageRead::Document(document(address, html)),
                        None => PageRead::Failed(BrowserError::Operation {
                            stage: "mock current",
                            message: "missing result".to_string(),
                        }),
                    },
                });
            }
            SearchAction::Sleep { duration } => {
                now += duration;
                run.handle(SearchEvent::Slept);
            }
            SearchAction::Finished => break,
        }
    }
    (run.finish(), queries)
}

#[test]
fn malformed_first_candidate_falls_back_to_next_candidate() {
    let first = candidate("https://93.184.216.20/");
    let second = candidate("https://93.184.216.21/");
    let malformed_rows = r#"<table id="searchResult"><tr><td>not a magnet</td></tr></table>"#;
    let engine = SearchEngine::with_poll_interval(SECOND, MILLISECOND);

    let (outcome, queries) = search(
        &engine,
        &vec![first, second.clone()],
        "legal image",
        &[
            ("https://93.184.216.20/", VALID_CANDIDATE),
            ("https://93.184.216.21/", VALID_CANDIDATE),
        ],
        &[
            ("https://93.184.216.20/", malformed_rows),
            ("https://93.184.216.21/", CLASSIC),
        ],
    );
    let outcome = outcome.expect("second candidate should succeed");

    assert_eq!(outcome.candidate, second.candidate);
    assert_eq!(outcome.results.len(), 1);
    assert_eq!(outcome.failures.len(), 1);
    assert_eq!(outcome.failures[0].stage, SearchFailureStage::ResultParsing);
    assert_eq!(queries, ["legal image", "legal image"]);
}

#[test]
fn each_way_to_fail_is_reported() {
    let engine = SearchEngine::with_poll_interval(10 * MILLISECOND, MILLISECOND);
    let address = "https://93.184.216.20/";
    let one = vec![candidate(address)];

    let (unopened, _) = search(&engine, &one, "q", &[], &[]);
    let error = unopened.expect_err("no page");
    assert_eq!(error.failures[0].stage, SearchFailureStage::CandidateOpen);
    assert_eq!(error.failures[0].reason, SearchFailureReason::BrowserFailure);
    assert_eq!(
        error.message(),
        "all validated proxy candidates failed during rendered search"
    );

    let (formless, _) = search(&engine, &one, "q", &[(address, "<p>nothing</p>")], &[]);
    let error = formless.expect_err("no form");
    assert_eq!(error.failures[0].stage, SearchFailureStage::FormValidation);
    assert_eq!(error.failures[0].reason, SearchFailureReason::UnsupportedPage);

    let (unread, _) = search(&engine, &one, "q", &[(address, VALID_CANDIDATE)], &[]);
    let error = unread.expect_err("no current page");
    assert_eq!(error.failures[0].stage, SearchFailureStage::ResultWait);
    assert_eq!(error.failures[0].reason, SearchFailureReason::BrowserFailure);

    let pending = [(address, "<p>loading</p>")];
    let (late, _) = search(&engine, &one, "q", &[(address, VALID_CANDIDATE)], &pending);
    let error = late.expect_err("pending forever");
    assert_eq!(error.failures[0].stage, SearchFailureStage::ResultWait);
    assert_eq!(error.failures[0].reason, SearchFailureReason::Timeout);

    let long = "x".repeat(513);
    let (refused, queries) = search(&engine, &one, &long, &[(address, VALID_CANDIDATE)], &[]);
    let error = refused.expect_err("query too long");
    assert_eq!(error.failures[0].stage, SearchFailureStage::FormSubmission);
    assert!(queries.is_empty());
    assert!(error.failures[0].message().contains("93.184.216.20"));
}

#[test]
fn waiting_ends_with_the_result_timeout() {
    let engine = SearchEngine::new(SECOND);
    let address = "https://93.184.216.20/";
    let mut run = engine.search_candidates(&vec![candidate(address)], "q");
    run.handle(SearchEvent::Opened(Ok(document(address, VALID_CANDIDATE))));
    run.handle(SearchEvent::Submitted { now: 5, result: Ok(()) });
    run.handle(SearchEvent::Time { now: 5 });
    assert_eq!(run.action(), SearchAction::Read { limit: SECOND });
    run.handle(SearchEvent::Read {
        now: SECOND,
        page: PageRead::Document(document(address, "<p>loading</p>")),
    });
    assert_eq!(run.action(), SearchAction::Sleep { duration: 5 });
    run.handle(SearchEvent::Slept);
    run.handle(SearchEvent::Time { now: SECOND + 5 });
    assert_eq!(run.action(), SearchAction::Finished);
    let error = run.finish().expect_err("timed out");
    assert_eq!(error.failures[0].reason, SearchFailureReason::Timeout);
}

#[test]
fn more_seeders_come_first_and_ranking_is_stable() {
    let mut most = make("most", "cccccccccccccccccccccccccccccccccccccccc");
    most.seeders = Some(99);
    let mut unknown = make("unknown", "dddddddddddddddddddddddddddddddddddddddd");
    unknown.seeders = None;
    let results = normalize_results(vec![
        unknown.clone(),
        make("b", "bbbbbbbbbbbbbbbbbbbbbbbbbbbbbbbbbbbbbbbb"),
        most.clone(),
        make("a", "aaaaaaaaaaaaaaaaaaaaaaaaaaaaaaaaaaaaaaaa"),
    ]);
    let names: Vec<&str> = results.iter().map(|result| result.name.as_str()).collect();
    assert_eq!(names, ["most", "a", "b", "unknown"]);
    let again = normalize_results(results.clone());
    assert_eq!(again, results);
}

#[test]
fn ranking_ignores_the_case_of_names() {
    let results = normalize_results(vec![
        make("ÉTÉ", "1111111111111111111111111111111111111111"),
        make("Zoo", "2222222222222222222222222222222222222222"),
        make("été", "3333333333333333333333333333333333333333"),
    ]);
    let names: Vec<&str> = results.iter().map(|result| result.name.as_str()).collect();
    assert_eq!(names, ["Zoo", "ÉTÉ", "été"]);
}

fn size_by_float(number: &str, power: i32) -> Option<u64> {
    let bytes = number.parse::<f64>().ok()? * 1024_f64.powi(power);
    if bytes.is_finite() && bytes >= 0.0 && bytes <= u64::MAX as f64 {
        Some(bytes.round() as u64)
    } else {
        None
    }
}

#[test]
fn sizes_agree_with_floating_point_arithmetic() {
    let numbers = [
        "0", "1", "0.5", "1.", ".5", "0.1", "0.3", "1.7", "2.675", "99.99", "123.456", "1023.9999",
        "0.0004882812", "0.00048828125", "0.000976562499999999", "3.141592653589793238462643",
        "9007199254740993", "18446744073709551615", "18446744073709551616", "1.0000000000000001",
        "0.49999999999999994", "4503599627370496.5", "4503599627370497.5", "00012.50",
        "123456789012345678901234567890", "0.000000000000000000000000000001",
    ];
    for (unit, power) in [("B", 0), ("KiB", 1), ("MB", 2), ("GiB", 3), ("TB", 4), ("PiB", 5)] {
        for number in numbers {
            let text = format!("{number} {unit}");
            assert_eq!(parse_size(&text), size_by_float(number, power), "{text}");
        }
    }
}

#[test]
fn long_sizes_are_read_exactly() {
    let long = 300_000;
    let zeros = "0".repeat(long);
    let numbers = [
        "9".repeat(long),
        format!("{zeros}7.5"),
        format!("0.{}", "3".repeat(long)),
        format!("1.{}", "9".repeat(long)),
        format!("0.{zeros}1"),
        format!("{zeros}.{zeros}"),
        format!("1{zeros}.5"),
        format!("9007199254740993.{zeros}"),
        format!("9007199254740993.{zeros}1"),
        format!("9007199254740992.{}", "9".repeat(long)),
        format!("0.4{}", "9".repeat(long)),
        format!("1.00048828124{}", "9".repeat(long)),
    ];
    for (unit, power) in [("B", 0), ("KiB", 1), ("PiB", 5)] {
        for number in &numbers {
            let text = format!("{number} {unit}");
            assert!(parse_size(&text) == size_by_float(number, power), "{} {unit}", &number[..12]);
        }
    }
    let tie = format!("9007199254740993.{zeros}");
    assert_eq!(parse_size(&format!("{tie} B")), Some(9_007_199_254_740_992));
    assert_eq!(parse_size(&format!("{tie}1 B")), Some(9_007_199_254_740_994));
    assert_eq!(parse_size(&format!("1{zeros} B")), None);
    assert_eq!(parse_size(&format!("0.{zeros}1 PiB")), Some(0));
}

#[test]
fn sizes_are_found_in_running_text() {
    assert_eq!(parse_size_value("Uploaded 2024, Size 1,024 KiB, by x", false), Some(1_048_576));
    assert_eq!(parse_size_value("4096", false), None);
    assert_eq!(parse_size_value("(2.5) GiB.", false), Some(2_684_354_560));
    assert_eq!(parse_size_value("size 3 apples 7 bytes", false), Some(7));
    assert_eq!(parse_size_value("1.2.3 GiB", false), None);
    assert_eq!(parse_size(""), None);
}

#[test]
fn counts_are_digits_with_separators() {
    assert_eq!(parse_count("1_000 000"), Some(1_000_000));
    assert_eq!(parse_count("\u{a0}7"), Some(7));
    assert_eq!(parse_count(""), None);
    assert_eq!(parse_count(",,"), None);
    assert_eq!(parse_count("18446744073709551615"), Some(u64::MAX));
    assert_eq!(parse_count("18446744073709551616"), None);
    assert_eq!(parse_count("+1"), None);
    assert_eq!(parse_count("٣"), None);
}

#[test]
fn result_states_are_told_apart() {
    let page = |html: &str| document("https://proxy.example/", html);
    assert_eq!(recognize_result_state(&page(CLASSIC)), ResultState::Rows);
    assert_eq!(recognize_result_state(&page(MODERN)), ResultState::Rows);
    assert_eq!(recognize_result_state(&page(GENERIC)), ResultState::Rows);
    assert_eq!(recognize_result_state(&page("<p>loading</p>")), ResultState::Pending);
    for marker in [
        "NO RESULTS FOUND",
        "No hits. Try adding an asterisk",
        "nothing found",
        "0 results",
    ] {
        assert_eq!(recognize_result_state(&page(marker)), ResultState::Empty);
    }
}

#[test]
fn a_name_falls_back_to_the_magnet() {
    let html = format!(
        r#"<ul class="search-results"><li><a href="magnet:?xt=urn:btih:{HASH_ONE}&dn=from+magnet">x</a></li></ul>"#
    );
    let results = parse_rendered_results(&document("https://Proxy.Example/", &html));
    assert_eq!(results.len(), 1);
    assert_eq!(results[0].name, "from magnet");
    assert_eq!(results[0].source_host, "proxy.example");
}

#[test]
fn rows_are_bounded() {
    let mut html = String::from("<table id=\"searchResult\">");
    for index in 0..600 {
        html.push_str(&format!(
            "<tr><td><a class=\"detLink\">r{index}</a><a href=\"magnet:?xt=urn:btih:{index:040x}\">m</a></td></tr>"
        ));
    }
    html.push_str("</table>");
    let results = parse_rendered_results(&document("https://proxy.example/", &html));
    assert_eq!(results.len(), 500);
}

#[test]
fn branches_hold_what_the_inner_selectors_match() {
    let html = "<ul><li id=a>one <b>two</b><i>x</i></li><li>three</li></ul>";
    let branches = select_within(html, "li", &["b", "i", "u"], 10);
    assert_eq!(branches.len(), 2);
    assert_eq!(branches[0].element.attr("id"), Some("a"));
    assert_eq!(branches[0].element.spaced_text(), "one  two x");
    assert_eq!(branches[0].parts.len(), 3);
    assert_eq!(branches[0].parts[0].len(), 1);
    assert_eq!(branches[0].parts[0][0].spaced_text(), "two");
    assert!(branches[0].parts[2].is_empty());
    assert!(branches[1].parts[0].is_empty());
    let first = select_within(html, "li", &["b", "i", "u"], 1);
    assert_eq!(first[..], branches[..1]);
    assert!(select_within(html, "li", &["b"], 0).is_empty());
    assert_eq!(select_first(html, "li", 1).len(), 1);
    assert_eq!(matches_among(html, "li", "li#a", 2), [true, false]);
    assert_eq!(matches_among(html, "li", "li#a", 1), [true]);
}

#[test]
fn written_counts_are_read_back() {
    for count in [0, 1, 9, 10, 1_234, u64::MAX] {
        assert_eq!(parse_count(&count.to_string()), Some(count));
    }
}

#[test]
fn whole_sizes_are_exact_in_every_spelling() {
    for n in [0, 1, 700, 9_007_199_254_740_991] {
        assert_eq!(parse_size(&n.to_string()), Some(n));
        for unit in ["B", "b", "byte", "bytes", "BYTES"] {
            assert_eq!(parse_size(&format!("{n} {unit}")), Some(n));
        }
        for unit in ["KB", "KiB", "kb", "kIb"] {
            assert_eq!(parse_size(&format!("{n} {unit}")), Some(n * 1024));
        }
    }
    for (unit, power) in [("MB", 2), ("GiB", 3), ("tib", 4), ("PB", 5)] {
        assert_eq!(parse_size(&format!("7 {unit}")), Some(7 * 1024_u64.pow(power)));
    }
}

#[test]
fn the_order_of_rows_does_not_matter() {
    let mut most = make("most", "cccccccccccccccccccccccccccccccccccccccc");
    most.seeders = Some(99);
    let rows = vec![
        make("b", "bbbbbbbbbbbbbbbbbbbbbbbbbbbbbbbbbbbbbbbb"),
        most,
        make("a", "aaaaaaaaaaaaaaaaaaaaaaaaaaaaaaaaaaaaaaaa"),
        make("B", "bbbbbbbbbbbbbbbbbbbbbbbbbbbbbbbbbbbbbbbb"),
    ];
    let hashes = |results: &Vec<TorrentResult>| -> Vec<String> {
        results.iter().map(|result| result.info_hash().as_str().to_string()).collect()
    };
    let forward = normalize_results(rows.clone());
    let backward = normalize_results(rows.into_iter().rev().collect());
    assert_eq!(forward.len(), 3);
    assert_eq!(hashes(&forward), hashes(&backward));
}

#[test]
fn a_failed_search_tells_of_every_candidate() {
    let engine = SearchEngine::with_poll_interval(10 * MILLISECOND, MILLISECOND);
    let list = vec![
        candidate("https://93.184.216.20/a?x=1"),
        candidate("https://93.184.216.21/b"),
    ];
    let (failed, _) = search(&engine, &list, "q", &[], &[]);
    let failures = failed.expect_err("no page").failures;
    let told: Vec<&str> = failures.iter().map(|failed| failed.candidate.as_str()).collect();
    assert_eq!(told, ["https://93.184.216.20/a", "https://93.184.216.21/b"]);
}
