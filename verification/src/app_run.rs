//! One run of the program: which step follows which, and what each outcome of a
//! step leads to. Whatever discovery and search come to, the browser is shut
//! down before anything is chosen.

use crate::app;
use crate::app::{
    announcement, collect_results, complete_results, discovery_diagnostics, discovery_error,
    limit_results, search_diagnostics, search_error, RunOutcome, WorkflowError, WorkflowFault,
};
use crate::cli::Cli;
use crate::config::AppConfig;
use crate::discovery;
use crate::discovery::{DiscoveryError, DiscoveryOutcome, ValidatedCandidate};
use crate::discovery_run;
use crate::model;
use crate::model::{MagnetUri, TorrentResult};
use crate::paths::FilePath;
use crate::search::{SearchError, SearchOutcome};
use crate::search_run;
use crate::selection;
use crate::selection::{PromptAnswer, TerminalChooser};
use crate::text;
use vstd::prelude::*;

verus! {

/// What a run waits for.
#[derive(Debug, Clone, Copy, PartialEq, Eq, Structural)]
pub enum WorkflowStage {
    Launch,
    Discover,
    Search,
    Shutdown,
    Report,
    Answer,
    Announce,
    Download,
    Done,
}

/// What happened outside.
pub enum WorkflowEvent {
    /// The browser session began, or did not.
    Launched(Result<(), String>),
    /// Discovery ended.
    Discovered(Result<DiscoveryOutcome, DiscoveryError>),
    /// The search ended.
    Searched(Result<SearchOutcome, SearchError>),
    /// The browser session ended.
    ShutDown(Result<(), String>),
    /// The diagnostics were shown.
    Reported,
    /// What the user answered; it counts only where the choice is not automatic.
    Answered(PromptAnswer),
    /// The chosen result was shown.
    Announced,
    /// The download ended.
    Downloaded(Result<(), String>),
}

/// The state of a run.
#[verifier::ext_equal]
pub struct WorkflowModel {
    pub query: Seq<char>,
    pub automatic: bool,
    pub dry_run: bool,
    pub result_limit: nat,
    pub stage: WorkflowStage,
    pub candidates: Seq<discovery_run::ValidatedModel>,
    pub failure: Option<WorkflowFault>,
    pub notes: Seq<Seq<char>>,
    pub results: Seq<model::TorrentModel>,
    pub selected: Option<model::TorrentModel>,
    pub result: Option<Result<(model::TorrentModel, bool), WorkflowFault>>,
}

impl WorkflowModel {
    /// The same state at another stage.
    pub open spec fn at(self, stage: WorkflowStage) -> WorkflowModel {
        WorkflowModel { stage, ..self }
    }

    /// The run is over with this result.
    pub open spec fn over(self, result: Result<(model::TorrentModel, bool), WorkflowFault>) ->
        WorkflowModel {
        WorkflowModel { stage: WorkflowStage::Done, result: Some(result), ..self }
    }

    /// The run fails once the browser is shut down.
    pub open spec fn doomed(self, fault: WorkflowFault) -> WorkflowModel {
        WorkflowModel { stage: WorkflowStage::Shutdown, failure: Some(fault), ..self }
    }

    /// The browser session began.
    pub open spec fn launched(self, result: Result<(), String>) -> WorkflowModel {
        match result {
            Ok(_) => self.at(WorkflowStage::Discover),
            Err(message) => self.over(Err(WorkflowFault::Browser(message@))),
        }
    }

    /// Discovery ended.
    pub open spec fn discovered(self, result: Result<DiscoveryOutcome, DiscoveryError>) ->
        WorkflowModel {
        match result {
            Err(error) => self.doomed(
                WorkflowFault::Discovery(
                    app::discovery_error_text(discovery::failure_views(error->failures@)),
                ),
            ),
            Ok(outcome) => {
                let told = WorkflowModel {
                    notes: self.notes + app::discovery_notes(
                        discovery::failure_views(outcome.failures@),
                        text::opt_view(outcome.cache_warning),
                    ),
                    candidates: discovery_run::validated_views(outcome.candidates@),
                    ..self
                };
                if outcome.candidates@.len() == 0 {
                    told.doomed(WorkflowFault::NoCandidates)
                } else {
                    told.at(WorkflowStage::Search)
                }
            },
        }
    }

    /// The search ended.
    pub open spec fn searched(self, result: Result<SearchOutcome, SearchError>) -> WorkflowModel {
        match result {
            Err(error) => self.doomed(
                WorkflowFault::Search(
                    app::search_error_text(search_run::failure_views(error.failures@)),
                ),
            ),
            Ok(outcome) => WorkflowModel {
                notes: self.notes + app::search_notes(search_run::failure_views(outcome.failures@)),
                results: model::result_views(outcome.results@),
                ..self
            }.at(WorkflowStage::Shutdown),
        }
    }

    /// The browser session ended. What failed before goes before a failure of
    /// the shutdown itself.
    pub open spec fn shut_down(self, result: Result<(), String>) -> WorkflowModel {
        match (self.failure, result) {
            (Some(fault), _) => (WorkflowModel { failure: None, ..self }).over(Err(fault)),
            (None, Err(message)) => self.over(Err(WorkflowFault::Shutdown(message@))),
            (None, Ok(_)) => self.at(WorkflowStage::Report),
        }
    }

    /// The diagnostics were shown.
    pub open spec fn reported(self) -> WorkflowModel {
        if self.results.len() == 0 {
            self.over(Err(WorkflowFault::NoResults(self.query)))
        } else {
            WorkflowModel {
                results: discovery::bounded(self.results, self.result_limit as int),
                ..self
            }.at(WorkflowStage::Answer)
        }
    }

    /// The user answered.
    pub open spec fn answered(self, answer: PromptAnswer) -> WorkflowModel {
        match app::completion(
            self.results,
            self.dry_run,
            selection::choice(self.results.len(), self.automatic, answer),
        ) {
            Err(fault) => self.over(Err(fault)),
            Ok(found) => WorkflowModel { selected: Some(found.0), ..self }.at(
                WorkflowStage::Announce,
            ),
        }
    }

    /// The chosen result was shown.
    pub open spec fn announced(self) -> WorkflowModel {
        match self.selected {
            Some(selected) => if self.dry_run {
                self.over(Ok((selected, false)))
            } else {
                self.at(WorkflowStage::Download)
            },
            None => self,
        }
    }

    /// The download ended.
    pub open spec fn downloaded(self, result: Result<(), String>) -> WorkflowModel {
        match (self.selected, result) {
            (Some(selected), Ok(_)) => self.over(Ok((selected, true))),
            (Some(_), Err(message)) => self.over(Err(WorkflowFault::Download(message@))),
            (None, _) => self,
        }
    }

    /// What an event leads to. One that was not asked for changes nothing.
    pub open spec fn step(self, event: WorkflowEvent) -> WorkflowModel {
        match (self.stage, event) {
            (WorkflowStage::Launch, WorkflowEvent::Launched(result)) => self.launched(result),
            (WorkflowStage::Discover, WorkflowEvent::Discovered(result)) => self.discovered(result),
            (WorkflowStage::Search, WorkflowEvent::Searched(result)) => self.searched(result),
            (WorkflowStage::Shutdown, WorkflowEvent::ShutDown(result)) => self.shut_down(result),
            (WorkflowStage::Report, WorkflowEvent::Reported) => self.reported(),
            (WorkflowStage::Answer, WorkflowEvent::Answered(answer)) => self.answered(answer),
            (WorkflowStage::Announce, WorkflowEvent::Announced) => self.announced(),
            (WorkflowStage::Download, WorkflowEvent::Downloaded(result)) => self.downloaded(result),
            _ => self,
        }
    }

    /// What holds of every state.
    pub open spec fn is_sound(self) -> bool {
        &&& self.result is Some <==> self.stage == WorkflowStage::Done
        &&& self.result_limit > 0
        &&& self.stage == WorkflowStage::Search ==> self.candidates.len() > 0
        &&& self.stage == WorkflowStage::Answer ==> 0 < self.results.len() <= self.result_limit
        &&& self.stage == WorkflowStage::Announce ==> self.selected is Some
        &&& self.stage == WorkflowStage::Download ==> self.selected is Some && !self.dry_run
        &&& self.failure is Some ==> self.stage == WorkflowStage::Shutdown
    }
}

/// The state in which a run starts.
pub open spec fn run_started(config: AppConfig, cli: Cli) -> WorkflowModel {
    WorkflowModel {
        query: cli.query@,
        automatic: cli.auto,
        dry_run: cli.dry_run,
        result_limit: config.search.result_limit@,
        stage: WorkflowStage::Launch,
        candidates: Seq::empty(),
        failure: None,
        notes: Seq::empty(),
        results: Seq::empty(),
        selected: None,
        result: None,
    }
}

/// What is to be done outside.
pub enum WorkflowAction<'a> {
    /// Begin a browser session.
    Launch,
    /// Discover and validate candidates.
    Discover,
    /// Search the candidates for the query.
    Search { candidates: &'a Vec<ValidatedCandidate>, query: &'a str },
    /// End the browser session.
    ShutDown,
    /// Show the diagnostics.
    Report(&'a Vec<String>),
    /// Let the user choose from these lines, if there are any.
    Ask(Option<Vec<String>>),
    /// Show the chosen result.
    Announce { label: &'static str, line: String },
    /// Download the chosen result.
    Download { magnet: &'a MagnetUri, output_directory: &'a FilePath },
    /// Nothing: the run is over.
    Finished,
}

/// One run.
pub struct WorkflowRun {
    config: AppConfig,
    cli: Cli,
    stage: WorkflowStage,
    candidates: Vec<ValidatedCandidate>,
    failure: Option<WorkflowError>,
    notes: Vec<String>,
    results: Vec<TorrentResult>,
    selected: Option<TorrentResult>,
    result: Option<Result<RunOutcome, WorkflowError>>,
}

impl View for WorkflowRun {
    type V = WorkflowModel;

    closed spec fn view(&self) -> WorkflowModel {
        WorkflowModel {
            query: self.cli.query@,
            automatic: self.cli.auto,
            dry_run: self.cli.dry_run,
            result_limit: self.config.search.result_limit@,
            stage: self.stage,
            candidates: discovery_run::validated_views(self.candidates@),
            failure: match self.failure {
                Some(error) => Some(error@),
                None => None,
            },
            notes: text::views(self.notes@),
            results: model::result_views(self.results@),
            selected: match self.selected {
                Some(result) => Some(result@),
                None => None,
            },
            result: match self.result {
                None => None,
                Some(Ok(outcome)) => Some(Ok((outcome.selected@, outcome.downloaded))),
                Some(Err(error)) => Some(Err(error@)),
            },
        }
    }
}

impl WorkflowRun {
    /// The settings of the run.
    pub closed spec fn config(&self) -> AppConfig {
        self.config
    }

    /// Begins a run with these settings, over which the options of the command
    /// line were laid already.
    pub fn run(config: AppConfig, cli: Cli) -> (r: WorkflowRun)
        ensures
            r.config() == config,
            r@ == run_started(config, cli),
            r@.is_sound(),
    {
        let result_limit = config.search.result_limit.get();
        let run = WorkflowRun {
            config,
            cli,
            stage: WorkflowStage::Launch,
            candidates: Vec::new(),
            failure: None,
            notes: Vec::new(),
            results: Vec::new(),
            selected: None,
            result: None,
        };
        proof {
            assert(result_limit > 0);
            assert(run@ =~= run_started(config, cli));
        }
        run
    }

    /// What the run asks for.
    pub fn action(&self) -> (r: WorkflowAction<'_>)
        requires
            self@.is_sound(),
        ensures
            match (self@.stage, r) {
                (WorkflowStage::Launch, WorkflowAction::Launch) => true,
                (WorkflowStage::Discover, WorkflowAction::Discover) => true,
                (WorkflowStage::Search, WorkflowAction::Search { candidates, query }) =>
                    discovery_run::validated_views(candidates@) == self@.candidates && query@
                        == self@.query,
                (WorkflowStage::Shutdown, WorkflowAction::ShutDown) => true,
                (WorkflowStage::Report, WorkflowAction::Report(notes)) => text::views(notes@)
                    == self@.notes,
                (WorkflowStage::Answer, WorkflowAction::Ask(None)) => self@.automatic,
                (WorkflowStage::Answer, WorkflowAction::Ask(Some(lines))) => !self@.automatic
                    && lines@.len() == self@.results.len() && forall|i: int|
                    0 <= i < lines@.len() ==> (#[trigger] lines@[i])@ == selection::result_text(
                        self@.results[i],
                        self.config().search.max_title_characters@ as usize,
                    ),
                (WorkflowStage::Announce, WorkflowAction::Announce { label, line }) =>
                    self@.selected matches Some(selected) && label@ == app::announcement_label(
                        self@.dry_run,
                    ) && line@ == selection::result_text(
                        selected,
                        self.config().search.max_title_characters@ as usize,
                    ),
                (WorkflowStage::Download, WorkflowAction::Download { magnet, output_directory }) =>
                    self@.selected matches Some(selected) && magnet@ == selected.magnet
                        && output_directory@ == self.config().downloader.output_directory@,
                (WorkflowStage::Done, WorkflowAction::Finished) => true,
                _ => false,
            },
    {
        match self.stage {
            WorkflowStage::Launch => WorkflowAction::Launch,
            WorkflowStage::Discover => WorkflowAction::Discover,
            WorkflowStage::Search => WorkflowAction::Search {
                candidates: &self.candidates,
                query: self.cli.query.as_str(),
            },
            WorkflowStage::Shutdown => WorkflowAction::ShutDown,
            WorkflowStage::Report => WorkflowAction::Report(&self.notes),
            WorkflowStage::Answer => {
                let chooser = TerminalChooser::new(self.config.search.max_title_characters.get());
                if chooser.asks(&self.results, self.cli.auto) {
                    WorkflowAction::Ask(Some(chooser.items(&self.results)))
                } else {
                    WorkflowAction::Ask(None)
                }
            },
            WorkflowStage::Announce => match &self.selected {
                Some(selected) => {
                    let (label, line) = announcement(selected, &self.config, self.cli.dry_run);
                    WorkflowAction::Announce { label, line }
                },
                None => WorkflowAction::Finished,
            },
            WorkflowStage::Download => match &self.selected {
                Some(selected) => WorkflowAction::Download {
                    magnet: &selected.magnet,
                    output_directory: &self.config.downloader.output_directory,
                },
                None => WorkflowAction::Finished,
            },
            WorkflowStage::Done => WorkflowAction::Finished,
        }
    }

    fn fail(&mut self, error: WorkflowError)
        ensures
            final(self)@ == old(self)@.over(Err(error@)),
            final(self).config() == old(self).config(),
    {
        self.result = Some(Err(error));
        self.stage = WorkflowStage::Done;
    }

    fn doom(&mut self, error: WorkflowError)
        ensures
            final(self)@ == old(self)@.doomed(error@),
            final(self).config() == old(self).config(),
    {
        self.failure = Some(error);
        self.stage = WorkflowStage::Shutdown;
    }

    fn note(&mut self, lines: Vec<String>)
        ensures
            final(self)@ == (WorkflowModel {
                notes: old(self)@.notes + text::views(lines@),
                ..old(self)@
            }),
            final(self).config() == old(self).config(),
    {
        let mut lines = lines;
        let ghost before = self.notes@;
        let ghost more = lines@;
        self.notes.append(&mut lines);
        proof {
            assert(text::views(self.notes@) =~= text::views(before) + text::views(more));
        }
    }

    fn on_discovered(&mut self, result: Result<DiscoveryOutcome, DiscoveryError>)
        ensures
            final(self)@ == old(self)@.discovered(result),
            final(self).config() == old(self).config(),
    {
        match result {
            Err(error) => {
                let message = discovery_error(&error);
                self.doom(WorkflowError::Discovery(message));
            },
            Ok(outcome) => {
                let lines = discovery_diagnostics(&outcome);
                self.note(lines);
                self.candidates = outcome.candidates;
                match collect_results(&self.candidates) {
                    Ok(_) => {
                        self.stage = WorkflowStage::Search;
                    },
                    Err(error) => self.doom(error),
                }
            },
        }
    }

    fn on_searched(&mut self, result: Result<SearchOutcome, SearchError>)
        ensures
            final(self)@ == old(self)@.searched(result),
            final(self).config() == old(self).config(),
    {
        match result {
            Err(error) => {
                let message = search_error(&error);
                self.doom(WorkflowError::Search(message));
            },
            Ok(outcome) => {
                let lines = search_diagnostics(&outcome);
                self.note(lines);
                self.results = outcome.results;
                self.stage = WorkflowStage::Shutdown;
            },
        }
    }

    fn on_shut_down(&mut self, result: Result<(), String>)
        ensures
            final(self)@ == old(self)@.shut_down(result),
            final(self).config() == old(self).config(),
    {
        let mut failure: Option<WorkflowError> = None;
        std::mem::swap(&mut failure, &mut self.failure);
        match failure {
            Some(error) => self.fail(error),
            None => match result {
                Err(message) => self.fail(WorkflowError::Shutdown(message)),
                Ok(_) => {
                    self.stage = WorkflowStage::Report;
                },
            },
        }
    }

    fn on_reported(&mut self)
        ensures
            final(self)@ == old(self)@.reported(),
            final(self).config() == old(self).config(),
    {
        let mut results: Vec<TorrentResult> = Vec::new();
        std::mem::swap(&mut results, &mut self.results);
        if results.len() == 0 {
            self.fail(WorkflowError::NoResults { query: self.cli.query.clone() });
            proof {
                assert(self@.results =~= old(self)@.results);
            }
            return;
        }
        match limit_results(results, &self.config, &self.cli) {
            Ok(limited) => {
                self.results = limited;
                self.stage = WorkflowStage::Answer;
            },
            Err(error) => self.fail(error),
        }
    }

    fn on_answered(&mut self, answer: PromptAnswer)
        ensures
            final(self)@ == old(self)@.answered(answer),
            final(self).config() == old(self).config(),
    {
        let chooser = TerminalChooser::new(self.config.search.max_title_characters.get());
        let chosen = chooser.select(&self.results, self.cli.auto, answer);
        match complete_results(&self.results, &self.cli, chosen) {
            Ok(outcome) => {
                self.selected = Some(outcome.selected);
                self.stage = WorkflowStage::Announce;
            },
            Err(error) => self.fail(error),
        }
    }

    fn on_announced(&mut self)
        ensures
            final(self)@ == old(self)@.announced(),
            final(self).config() == old(self).config(),
    {
        if let Some(selected) = &self.selected {
            if self.cli.dry_run {
                let selected = selected.clone();
                self.result = Some(Ok(RunOutcome { selected, downloaded: false }));
                self.stage = WorkflowStage::Done;
            } else {
                self.stage = WorkflowStage::Download;
            }
        }
    }

    fn on_downloaded(&mut self, result: Result<(), String>)
        ensures
            final(self)@ == old(self)@.downloaded(result),
            final(self).config() == old(self).config(),
    {
        if let Some(selected) = &self.selected {
            match result {
                Ok(_) => {
                    let selected = selected.clone();
                    self.result = Some(Ok(RunOutcome { selected, downloaded: true }));
                    self.stage = WorkflowStage::Done;
                },
                Err(message) => self.fail(WorkflowError::Download(message)),
            }
        }
    }

    /// Takes in what happened.
    pub fn handle(&mut self, event: WorkflowEvent)
        requires
            old(self)@.is_sound(),
        ensures
            final(self)@ == old(self)@.step(event),
            final(self)@.is_sound(),
            final(self).config() == old(self).config(),
    {
        proof {
            runs_stay_sound(self@, event);
        }
        match event {
            WorkflowEvent::Launched(result) => if self.stage == WorkflowStage::Launch {
                match result {
                    Ok(_) => {
                        self.stage = WorkflowStage::Discover;
                    },
                    Err(message) => self.fail(WorkflowError::Browser(message)),
                }
            },
            WorkflowEvent::Discovered(result) => if self.stage == WorkflowStage::Discover {
                self.on_discovered(result);
            },
            WorkflowEvent::Searched(result) => if self.stage == WorkflowStage::Search {
                self.on_searched(result);
            },
            WorkflowEvent::ShutDown(result) => if self.stage == WorkflowStage::Shutdown {
                self.on_shut_down(result);
            },
            WorkflowEvent::Reported => if self.stage == WorkflowStage::Report {
                self.on_reported();
            },
            WorkflowEvent::Answered(answer) => if self.stage == WorkflowStage::Answer {
                self.on_answered(answer);
            },
            WorkflowEvent::Announced => if self.stage == WorkflowStage::Announce {
                self.on_announced();
            },
            WorkflowEvent::Downloaded(result) => if self.stage == WorkflowStage::Download {
                self.on_downloaded(result);
            },
        }
    }

    /// What the run came to, once it is over.
    pub fn finish(self) -> (r: Option<Result<RunOutcome, WorkflowError>>)
        ensures
            match (r, self@.result) {
                (Some(Ok(outcome)), Some(Ok(expected))) => outcome.selected@ == expected.0
                    && outcome.downloaded == expected.1,
                (Some(Err(error)), Some(Err(fault))) => error@ == fault,
                (None, None) => true,
                _ => false,
            },
    {
        self.result
    }
}

// ----------------------------------------------------------------------- laws

/// Every event keeps a run sound.
pub proof fn runs_stay_sound(m: WorkflowModel, event: WorkflowEvent)
    requires
        m.is_sound(),
    ensures
        m.step(event).is_sound(),
{
}

/// How far a stage is from the end.
pub open spec fn stages_left(stage: WorkflowStage) -> nat {
    match stage {
        WorkflowStage::Launch => 8,
        WorkflowStage::Discover => 7,
        WorkflowStage::Search => 6,
        WorkflowStage::Shutdown => 5,
        WorkflowStage::Report => 4,
        WorkflowStage::Answer => 3,
        WorkflowStage::Announce => 2,
        WorkflowStage::Download => 1,
        WorkflowStage::Done => 0,
    }
}

/// The stages are passed in order and none twice: discovery goes before the
/// search, and both before the choice.
pub proof fn stages_are_passed_in_order(m: WorkflowModel, event: WorkflowEvent)
    requires
        m.is_sound(),
    ensures
        m.step(event).stage == m.stage || stages_left(m.step(event).stage) < stages_left(m.stage),
        m.step(event).stage == WorkflowStage::Search && m.stage != WorkflowStage::Search ==> m.stage
            == WorkflowStage::Discover,
{
}

/// A browser session that began is shut down: from then on a run neither ends nor
/// goes on to the choice but through the shutdown.
pub proof fn sessions_are_shut_down(m: WorkflowModel, event: WorkflowEvent)
    requires
        m.is_sound(),
        m.stage == WorkflowStage::Discover || m.stage == WorkflowStage::Search,
    ensures
        m.step(event).stage == WorkflowStage::Discover || m.step(event).stage
            == WorkflowStage::Search || m.step(event).stage == WorkflowStage::Shutdown,
{
}

/// A dry run never downloads.
pub proof fn dry_runs_never_download(m: WorkflowModel, event: WorkflowEvent)
    requires
        m.is_sound(),
        m.dry_run,
        m.result is None,
    ensures
        m.step(event).dry_run,
        m.stage != WorkflowStage::Download,
        m.step(event).stage != WorkflowStage::Download,
        m.step(event).result matches Some(Ok(outcome)) ==> !outcome.1,
{
}

/// An automatic choice is the first result, whatever is answered.
pub proof fn automatic_choice_is_the_first(m: WorkflowModel, answer: PromptAnswer)
    requires
        m.is_sound(),
        m.stage == WorkflowStage::Answer,
        m.automatic,
    ensures
        m.step(WorkflowEvent::Answered(answer)).selected == Some(m.results[0]),
        m.step(WorkflowEvent::Answered(answer)).stage == WorkflowStage::Announce,
{
}

/// What is downloaded is one of the results that the search gave, and no more of
/// those are shown than the limit admits.
pub proof fn choices_are_among_the_results(m: WorkflowModel, answer: PromptAnswer)
    requires
        m.is_sound(),
        m.stage == WorkflowStage::Report,
        m.results.len() > 0,
    ensures
        ({
            let asked = m.step(WorkflowEvent::Reported);
            let chosen = asked.step(WorkflowEvent::Answered(answer));
            &&& asked.results == discovery::bounded(m.results, m.result_limit as int)
            &&& chosen.stage == WorkflowStage::Announce ==> match chosen.selected {
                Some(selected) => m.results.contains(selected),
                None => false,
            }
        }),
{
    let asked = m.step(WorkflowEvent::Reported);
    let chosen = asked.step(WorkflowEvent::Answered(answer));
    if chosen.stage == WorkflowStage::Announce {
        let index = selection::choice(asked.results.len(), m.automatic, answer)->Ok_0 as int;
        assert(asked.results[index] == m.results[index]);
    }
}

} // verus!
