//! Laws of what is said: results as lines, choices, and what went wrong.

use crate::app;
use crate::app::WorkflowFault;
use crate::browser;
use crate::browser::BrowserFault;
use crate::discovery;
use crate::discovery::{FailureReason, FailureStage};
use crate::dom;
use crate::downloader;
use crate::downloader::{ClientKind, DownloadFault};
use crate::model;
use crate::search_run;
use crate::search_run::{SearchFailureReason, SearchFailureStage};
use crate::selection;
use crate::selection::{PromptAnswer, SelectionError};
use crate::text;
use vstd::prelude::*;

verus! {

// ------------------------------------------------------------------- characters

/// The characters that are told apart, by their numbers: white space, decimal digits,
/// ASCII letters, control characters and marks that turn the direction of writing;
/// and only the capital ASCII letters have a small one beside them.
pub proof fn characters_have_their_classes(c: char)
    ensures
        text::is_white(c) <==> {
            ||| 0x9 <= c as int <= 0xd
            ||| c as int == 0x20
            ||| c as int == 0x85
            ||| c as int == 0xa0
            ||| c as int == 0x1680
            ||| 0x2000 <= c as int <= 0x200a
            ||| 0x2028 <= c as int <= 0x2029
            ||| c as int == 0x202f
            ||| c as int == 0x205f
            ||| c as int == 0x3000
        },
        text::is_digit(c) <==> 0x30 <= c as int <= 0x39,
        text::is_letter(c) <==> 0x41 <= c as int <= 0x5a || 0x61 <= c as int <= 0x7a,
        text::is_control(c) <==> c as int <= 0x1f || 0x7f <= c as int <= 0x9f,
        text::is_bidi_mark(c) <==> {
            ||| c as int == 0x61c
            ||| 0x200e <= c as int <= 0x200f
            ||| 0x202a <= c as int <= 0x202e
            ||| 0x2066 <= c as int <= 0x2069
        },
        text::lower_char(c) as int == (if 0x41 <= c as int <= 0x5a {
            c as int + 0x20
        } else {
            c as int
        }),
{
}

// --------------------------------------------------------------------- results

/// A text that fits is shown as it is. Of one that does not, all but the last of
/// the characters that fit are shown, and an ellipsis stands for the rest.
pub proof fn long_texts_end_in_an_ellipsis(value: Seq<char>, limit: nat)
    ensures
        value.len() <= limit ==> selection::ellipsized(value, limit) == value,
        value.len() > limit && limit > 0 ==> {
            let shown = selection::ellipsized(value, limit);
            &&& shown.len() == limit
            &&& shown.last() as int == 0x2026
            &&& forall|i: int| 0 <= i < limit - 1 ==> shown[i] == value[i]
        },
        limit == 0 ==> selection::ellipsized(value, limit).len() == 0,
{
}

/// A title is shown without what steers a terminal, and it is never longer than it
/// may be; an ellipsis tells that something is missing.
pub proof fn titles_fit(name: Seq<char>, limit: usize)
    requires
        limit < usize::MAX,
    ensures
        ({
            let clean = model::sanitized(name, (limit + 1) as nat);
            let shown = selection::title_text(name, limit);
            &&& shown.len() <= limit
            &&& clean.len() <= limit ==> shown == clean
            &&& clean.len() > limit && limit > 0 ==> {
                &&& shown.len() == limit
                &&& shown.last() as int == 0x2026
                &&& forall|i: int| 0 <= i < limit - 1 ==> shown[i] == clean[i]
            }
        }),
{
}

/// A result is shown in six parts: its title, its seeders, its leechers, its
/// category, its host and its size. A count that is not known is a question mark,
/// and a category that is not known or shows nothing is unknown.
pub proof fn results_are_shown_in_parts(result: model::TorrentModel, limit: usize)
    ensures
        exists|seeders: Seq<char>, leechers: Seq<char>, category: Seq<char>|
            {
                &&& selection::result_text(result, limit) == #[trigger] line_of(
                    selection::title_text(result.name, limit),
                    seeders,
                    leechers,
                    category,
                    model::sanitized(result.source_host, 253),
                    selection::human_size_text(result.size_bytes),
                )
                &&& match result.seeders {
                    Some(count) => text::all_digits(seeders) && seeders.len() > 0
                        && text::decimal_value(seeders) == count,
                    None => seeders == "?"@,
                }
                &&& match result.leechers {
                    Some(count) => text::all_digits(leechers) && leechers.len() > 0
                        && text::decimal_value(leechers) == count,
                    None => leechers == "?"@,
                }
                &&& match result.category {
                    Some(value) => {
                        &&& model::sanitized(value, 128).len() > 0 ==> category
                            == model::sanitized(value, 128)
                        &&& model::sanitized(value, 128).len() == 0 ==> category == "unknown"@
                    },
                    None => category == "unknown"@,
                }
            },
{
    if result.seeders is Some {
        text::decimal_text_round_trips(result.seeders->0 as nat);
    }
    if result.leechers is Some {
        text::decimal_text_round_trips(result.leechers->0 as nat);
    }
    let seeders = selection::count_text(result.seeders);
    let leechers = selection::count_text(result.leechers);
    let category = selection::category_text(result.category);
    assert(selection::result_text(result, limit) == line_of(
        selection::title_text(result.name, limit),
        seeders,
        leechers,
        category,
        model::sanitized(result.source_host, 253),
        selection::human_size_text(result.size_bytes),
    ));
}

/// A line of six parts.
pub open spec fn line_of(
    title: Seq<char>,
    seeders: Seq<char>,
    leechers: Seq<char>,
    category: Seq<char>,
    host: Seq<char>,
    size: Seq<char>,
) -> Seq<char> {
    title + " | seeders "@ + seeders + " | leechers "@ + leechers + " | "@ + category + " | "@
        + host + " | "@ + size
}

/// Nothing can be chosen of nothing. Otherwise an automatic choice is the first,
/// whatever would have been answered, and any other is the one that was answered.
pub proof fn choices_follow_answers(count: nat, answer: PromptAnswer)
    ensures
        forall|automatic: bool|
            #[trigger] selection::choice(0, automatic, answer) == Err::<usize, SelectionError>(
                SelectionError::NoResults,
            ),
        count > 0 ==> selection::choice(count, true, answer) == Ok::<usize, SelectionError>(0),
        count > 0 ==> match answer {
            PromptAnswer::Picked(index) => selection::choice(count, false, answer) == Ok::<
                usize,
                SelectionError,
            >(index),
            PromptAnswer::Cancelled => selection::choice(count, false, answer) == Err::<
                usize,
                SelectionError,
            >(SelectionError::Cancelled),
            PromptAnswer::Failed => selection::choice(count, false, answer) == Err::<
                usize,
                SelectionError,
            >(SelectionError::PromptFailed),
        },
{
}

/// What a choice comes to: the result at its place, to be downloaded unless the run
/// is dry; a place behind the last is refused.
pub proof fn chosen_results_are_taken(
    limited: Seq<model::TorrentModel>,
    dry_run: bool,
    index: usize,
)
    requires
        limited.len() > 0,
    ensures
        index < limited.len() ==> app::completion(limited, dry_run, Ok(index)) == Ok::<
            (model::TorrentModel, bool),
            app::WorkflowFault,
        >((limited[index as int], !dry_run)),
        index >= limited.len() ==> app::completion(limited, dry_run, Ok(index)) == Err::<
            (model::TorrentModel, bool),
            app::WorkflowFault,
        >(app::WorkflowFault::OutOfRange),
{
}

// -------------------------------------------------------------------- failures

/// How the failures of discovery are called: where they came up, and why.
pub proof fn discovery_failures_say_what_they_are()
    ensures
        discovery::stage_text(FailureStage::DiscoverySource) == "discovery source"@,
        discovery::stage_text(FailureStage::CandidatePreflight) == "candidate preflight"@,
        discovery::stage_text(FailureStage::CandidateRender) == "candidate render"@,
        discovery::stage_text(FailureStage::CandidateValidation) == "candidate validation"@,
        discovery::reason_text(FailureReason::RejectedNavigation) == "navigation was rejected"@,
        discovery::reason_text(FailureReason::Timeout) == "operation timed out"@,
        discovery::reason_text(FailureReason::BrowserFailure) == "browser operation failed"@,
        discovery::reason_text(FailureReason::Blocked) == "access was denied"@,
        discovery::reason_text(FailureReason::Challenge)
            == "page presented a challenge or CAPTCHA"@,
        discovery::reason_text(FailureReason::UnsupportedPage)
            == "page had no supported search form"@,
        discovery::reason_text(FailureReason::MalformedPage) == "page structure was malformed"@,
{
}

/// How the failures of a search are called.
pub proof fn search_failures_say_what_they_are()
    ensures
        search_run::stage_text(SearchFailureStage::CandidateOpen) == "candidate open"@,
        search_run::stage_text(SearchFailureStage::FormValidation) == "form validation"@,
        search_run::stage_text(SearchFailureStage::FormSubmission) == "form submission"@,
        search_run::stage_text(SearchFailureStage::ResultWait) == "result wait"@,
        search_run::stage_text(SearchFailureStage::ResultParsing) == "result parsing"@,
        search_run::reason_text(SearchFailureReason::Timeout) == "operation timed out"@,
        search_run::reason_text(SearchFailureReason::BrowserFailure)
            == "browser operation failed"@,
        search_run::reason_text(SearchFailureReason::UnsupportedPage)
            == "search form was no longer supported"@,
        search_run::reason_text(SearchFailureReason::MalformedResults)
            == "rendered results contained no valid torrent identities"@,
{
}

/// Errors that carry a message end with it, whatever it says, and say first where it
/// comes from.
pub proof fn messages_are_carried_along(message: Seq<char>, stage: Seq<char>, client: ClientKind)
    ensures
        app::workflow_fault_text(WorkflowFault::Browser(message)) == "browser stage failed: "@
            + message,
        app::workflow_fault_text(WorkflowFault::Shutdown(message)) == "browser shutdown failed: "@
            + message,
        app::workflow_fault_text(WorkflowFault::Discovery(message)) == message,
        app::workflow_fault_text(WorkflowFault::Search(message)) == message,
        app::workflow_fault_text(WorkflowFault::Download(message)) == message,
        app::workflow_fault_text(WorkflowFault::NoResults(message))
            == "no torrent results were found for "@ + app::quoted(message),
        browser::fault_text(BrowserFault::Launch(message)) == "browser launch failed: "@ + message,
        browser::fault_text(BrowserFault::NavigationRejected(message)) == "navigation rejected: "@
            + message,
        browser::fault_text(BrowserFault::Operation(stage, message))
            == "browser operation failed during "@ + stage + ": "@ + message,
        browser::fault_text(BrowserFault::Timeout(stage)) == "browser "@ + stage + " timed out"@,
        downloader::download_fault_text(DownloadFault::Spawn(client, message))
            == "failed to start "@ + downloader::client_name(client) + ": "@ + message,
        downloader::download_fault_text(DownloadFault::NonzeroExit(client, message))
            == downloader::client_name(client) + " exited unsuccessfully: "@ + message,
        downloader::download_fault_text(DownloadFault::OutputInspection(message))
            == "cannot safely inspect output directory: "@ + message,
        downloader::download_fault_text(DownloadFault::UnsupportedClient(client, message))
            == "torrent client "@ + downloader::client_name(client)
            + " cannot meet pbtdl's foreground/no-seeding contract: "@ + message,
{
}

proof fn one_more_part(parts: Seq<Seq<char>>, next: Seq<char>, limit: int)
    requires
        0 <= limit,
    ensures
        parts.len() >= limit ==> text::joined(dom::first_of(parts.push(next), limit), "; "@)
            == text::joined(dom::first_of(parts, limit), "; "@),
        0 < parts.len() < limit ==> text::joined(dom::first_of(parts.push(next), limit), "; "@)
            == text::joined(dom::first_of(parts, limit), "; "@) + "; "@ + next,
        parts.len() == 0 && limit > 0 ==> text::joined(
            dom::first_of(parts.push(next), limit),
            "; "@,
        ) == next,
{
    let all = parts.push(next);
    if parts.len() >= limit {
        assert(dom::first_of(all, limit) =~= dom::first_of(parts, limit));
    } else {
        assert(dom::first_of(all, limit) =~= all);
        assert(dom::first_of(parts, limit) =~= parts);
        assert(all.drop_last() =~= parts);
        assert(all.last() == next);
    }
}

/// How one failure of discovery reads.
pub open spec fn told_of_discovery(failure: discovery::FailureModel) -> Seq<char> {
    discovery::stage_text(failure.stage) + " "@ + failure.url + ": "@ + discovery::reason_text(
        failure.reason,
    )
}

/// How one failure of a search reads.
pub open spec fn told_of_search(failure: search_run::SearchFailureModel) -> Seq<char> {
    search_run::stage_text(failure.stage) + " "@ + failure.candidate + ": "@
        + search_run::reason_text(failure.reason)
}

/// Failures of discovery are told one after the other, with a semicolon between
/// them, until the limit is reached; the rest are left out.
pub proof fn discovery_failures_are_told_in_turn(
    failures: Seq<discovery::FailureModel>,
    next: discovery::FailureModel,
    limit: int,
)
    requires
        0 <= limit,
    ensures
        app::discovery_summary(Seq::empty(), limit).len() == 0,
        failures.len() >= limit ==> app::discovery_summary(failures.push(next), limit)
            == app::discovery_summary(failures, limit),
        0 < failures.len() < limit ==> app::discovery_summary(failures.push(next), limit)
            == app::discovery_summary(failures, limit) + "; "@ + told_of_discovery(next),
        failures.len() == 0 && limit > 0 ==> app::discovery_summary(failures.push(next), limit)
            == told_of_discovery(next),
{
    let none = Seq::<discovery::FailureModel>::empty();
    let lines = Seq::new(failures.len(), |i: int| discovery::failure_text(failures[i]));
    let all = failures.push(next);
    assert(Seq::new(all.len(), |i: int| discovery::failure_text(all[i])) =~= lines.push(
        discovery::failure_text(next),
    ));
    one_more_part(lines, discovery::failure_text(next), limit);
    assert(dom::first_of(
        Seq::new(none.len(), |i: int| discovery::failure_text(none[i])),
        limit,
    ).len() == 0);
}

/// Failures of a search are told in the same way.
pub proof fn search_failures_are_told_in_turn(
    failures: Seq<search_run::SearchFailureModel>,
    next: search_run::SearchFailureModel,
    limit: int,
)
    requires
        0 <= limit,
    ensures
        app::search_summary(Seq::empty(), limit).len() == 0,
        failures.len() >= limit ==> app::search_summary(failures.push(next), limit)
            == app::search_summary(failures, limit),
        0 < failures.len() < limit ==> app::search_summary(failures.push(next), limit)
            == app::search_summary(failures, limit) + "; "@ + told_of_search(next),
        failures.len() == 0 && limit > 0 ==> app::search_summary(failures.push(next), limit)
            == told_of_search(next),
{
    let none = Seq::<search_run::SearchFailureModel>::empty();
    let lines = Seq::new(failures.len(), |i: int| search_run::failure_text(failures[i]));
    let all = failures.push(next);
    assert(Seq::new(all.len(), |i: int| search_run::failure_text(all[i])) =~= lines.push(
        search_run::failure_text(next),
    ));
    one_more_part(lines, search_run::failure_text(next), limit);
    assert(dom::first_of(
        Seq::new(none.len(), |i: int| search_run::failure_text(none[i])),
        limit,
    ).len() == 0);
}

/// A run that failed tells its first five failures, and no others.
pub proof fn five_failures_are_told(
    found: Seq<discovery::FailureModel>,
    searched: Seq<search_run::SearchFailureModel>,
)
    ensures
        found.len() > 5 ==> app::discovery_error_text(found) == app::discovery_error_text(
            found.take(5),
        ),
        searched.len() > 5 ==> app::search_error_text(searched) == app::search_error_text(
            searched.take(5),
        ),
        app::discovery_error_text(found) == (if app::discovery_summary(found, 5).len() == 0 {
            "no usable Pirate Bay-compatible proxy candidate was found"@
        } else {
            "no usable Pirate Bay-compatible proxy candidate was found"@ + ": "@
                + app::discovery_summary(found, 5)
        }),
        app::search_error_text(searched) == (if app::search_summary(searched, 5).len() == 0 {
            "all validated proxy candidates failed during rendered search"@
        } else {
            "all validated proxy candidates failed during rendered search"@ + ": "@
                + app::search_summary(searched, 5)
        }),
{
    if found.len() > 5 {
        let few = found.take(5);
        assert(dom::first_of(
            Seq::new(found.len(), |i: int| discovery::failure_text(found[i])),
            5,
        ) =~= dom::first_of(Seq::new(few.len(), |i: int| discovery::failure_text(few[i])), 5));
    }
    if searched.len() > 5 {
        let few = searched.take(5);
        assert(dom::first_of(
            Seq::new(searched.len(), |i: int| search_run::failure_text(searched[i])),
            5,
        ) =~= dom::first_of(Seq::new(few.len(), |i: int| search_run::failure_text(few[i])), 5));
    }
}

/// A run that succeeded says how many attempts were skipped, whatever their number,
/// and tells three of them; where none was, it says nothing of it. A warning of the
/// cache comes last.
pub proof fn skipped_attempts_are_counted(
    found: Seq<discovery::FailureModel>,
    searched: Seq<search_run::SearchFailureModel>,
    warning: Seq<char>,
)
    ensures
        app::discovery_notes(Seq::empty(), None).len() == 0,
        app::discovery_notes(found, Some(warning)) == app::discovery_notes(found, None).push(
            "Cache warning: "@ + warning,
        ),
        found.len() > 0 ==> app::discovery_notes(found, None) == seq![
            "Discovery skipped "@ + text::decimal_text(found.len())
                + " source/candidate attempt(s): "@ + app::discovery_summary(found, 3),
        ],
        app::search_notes(Seq::empty()).len() == 0,
        searched.len() > 0 ==> app::search_notes(searched) == seq![
            "Search skipped "@ + text::decimal_text(searched.len()) + " candidate(s): "@
                + app::search_summary(searched, 3),
        ],
{
}

} // verus!
