//! One browser session: how it is started, and how a page is opened and read.
//! Each step asks for something outside and is told what came of it.

use crate::browser;
use crate::browser::{
    accept_hop, browser_candidates, check_document_size, common_browser_paths, exit_error,
    locate_browser_with,
    operation_error, operation_timeout, read_page_address, reject_unexpected_pages, BrowserError,
    BrowserFault, BrowserLaunchPlan, ExitAttempt, Lookup, NavigationPolicy, OperationFailure, PageInfo,
    RenderedDocument,
};
use crate::config::BrowserConfig;
use crate::discovery::SearchForm;
use crate::paths;
use crate::paths::FilePath;
use crate::submission_run;
use crate::submission_run::SubmissionRun;
use crate::text;
use crate::weburl;
use crate::weburl::Url;
use vstd::prelude::*;

verus! {

/// Seconds in nanoseconds.
pub open spec fn nanoseconds(seconds: u64) -> u128 {
    (seconds * 1_000_000_000) as u128
}

/// Seconds in nanoseconds.
pub fn to_nanoseconds(seconds: u64) -> (r: u128)
    ensures
        r == nanoseconds(seconds),
        r == seconds * 1_000_000_000,
{
    seconds as u128 * 1_000_000_000
}

fn copy_list(list: &Vec<String>) -> (r: Vec<String>)
    ensures
        text::views(r@) == text::views(list@),
{
    let mut out: Vec<String> = Vec::new();
    let mut i: usize = 0;
    while i < list.len()
        invariant
            i <= list@.len(),
            text::views(out@) == text::views(list@).take(i as int),
        decreases list@.len() - i,
    {
        let ghost before = text::views(out@);
        let item = list[i].clone();
        out.push(item);
        proof {
            assert(text::views(out@) =~= before.push(list@[i as int]@));
            assert(text::views(list@).take(i as int + 1) =~= text::views(list@).take(
                i as int,
            ).push(list@[i as int]@));
        }
        i = i + 1;
    }
    proof {
        assert(text::views(list@).take(list@.len() as int) =~= text::views(list@));
    }
    out
}

// ------------------------------------------------------------------- the start

/// What the start of a session waits for.
#[derive(Debug, Clone, Copy, PartialEq, Eq, Structural)]
pub enum LaunchStage {
    Probe,
    Profile,
    Start,
    Forbid,
    ClosePages,
    Abandon,
    Done,
}

/// What happened outside.
pub enum LaunchEvent {
    /// Which of the candidates are executable files.
    Probed(Vec<bool>),
    /// A directory for the profile was made, or could not be.
    ProfileMade(Result<FilePath, String>),
    /// The browser started, or did not.
    Started(Result<(), OperationFailure>),
    /// Downloads were forbidden, or could not be.
    Forbidden(Result<(), String>),
    /// The targets of the pages that were closed; none where they could not be
    /// listed.
    PagesClosed(Vec<String>),
    /// The browser was killed.
    Killed,
}

/// The state of a start.
#[verifier::ext_equal]
pub struct LaunchModel {
    pub configured: Option<Seq<u8>>,
    pub directories: Seq<Seq<u8>>,
    pub stage: LaunchStage,
    pub executable: Seq<u8>,
    pub profile: Seq<u8>,
    pub fault: Option<BrowserFault>,
    pub result: Option<Result<Seq<Seq<char>>, BrowserFault>>,
}

impl LaunchModel {
    /// The start failed before a browser ran.
    pub open spec fn failed(self, fault: BrowserFault) -> LaunchModel {
        LaunchModel { stage: LaunchStage::Done, result: Some(Err(fault)), ..self }
    }

    /// The candidates were looked at.
    pub open spec fn probed(self, marks: Seq<bool>) -> LaunchModel {
        match browser::first_marked(
            browser::candidates(self.configured, browser::common_paths(), self.directories),
            marks,
        ) {
            Some(found) => LaunchModel { stage: LaunchStage::Profile, executable: found, ..self },
            None => self.failed(
                match self.configured {
                    Some(path) => BrowserFault::InvalidExecutable(path),
                    None => BrowserFault::MissingExecutable,
                },
            ),
        }
    }

    /// The profile was made.
    pub open spec fn profiled(self, result: Result<FilePath, String>) -> LaunchModel {
        match result {
            Ok(path) => LaunchModel { stage: LaunchStage::Start, profile: path@, ..self },
            Err(message) => self.failed(BrowserFault::Launch(message@)),
        }
    }

    /// The browser was started.
    pub open spec fn started(self, result: Result<(), OperationFailure>) -> LaunchModel {
        match result {
            Ok(_) => LaunchModel { stage: LaunchStage::Forbid, ..self },
            Err(OperationFailure::TimedOut) => self.failed(BrowserFault::Timeout("launch"@)),
            Err(OperationFailure::Failed(message)) => self.failed(BrowserFault::Launch(message@)),
        }
    }

    /// Downloads were forbidden.
    pub open spec fn forbidden(self, result: Result<(), String>) -> LaunchModel {
        match result {
            Ok(_) => LaunchModel { stage: LaunchStage::ClosePages, ..self },
            Err(message) => LaunchModel {
                stage: LaunchStage::Abandon,
                fault: Some(BrowserFault::Operation("download policy"@, message@)),
                ..self
            },
        }
    }

    /// What an event leads to. One that was not asked for changes nothing.
    pub open spec fn step(self, event: LaunchEvent) -> LaunchModel {
        match (self.stage, event) {
            (LaunchStage::Probe, LaunchEvent::Probed(marks)) => self.probed(marks@),
            (LaunchStage::Profile, LaunchEvent::ProfileMade(result)) => self.profiled(result),
            (LaunchStage::Start, LaunchEvent::Started(result)) => self.started(result),
            (LaunchStage::Forbid, LaunchEvent::Forbidden(result)) => self.forbidden(result),
            (LaunchStage::ClosePages, LaunchEvent::PagesClosed(targets)) => LaunchModel {
                stage: LaunchStage::Done,
                result: Some(Ok(text::views(targets@))),
                ..self
            },
            (LaunchStage::Abandon, LaunchEvent::Killed) => match self.fault {
                Some(fault) => (LaunchModel { fault: None, ..self }).failed(fault),
                None => self,
            },
            _ => self,
        }
    }

    /// What holds of every state.
    pub open spec fn is_sound(self) -> bool {
        &&& self.stage == LaunchStage::Abandon ==> self.fault is Some
        &&& self.result is Some <==> self.stage == LaunchStage::Done
    }
}

/// What is to be done outside.
pub enum LaunchAction {
    /// See which of the files can be executed.
    Probe(Vec<FilePath>),
    /// Make an empty directory for the profile.
    MakeProfile,
    /// Start the browser.
    Start(BrowserLaunchPlan),
    /// Forbid the browser to download.
    ForbidDownloads,
    /// Close the pages that the browser opened itself.
    ClosePages,
    /// Kill the browser.
    Kill,
    /// Nothing: the start is over.
    Finished,
}

/// A session by its values.
#[verifier::ext_equal]
pub struct SessionModel {
    pub allow_local: bool,
    pub navigation_timeout: u128,
    pub initial: Seq<Seq<char>>,
}

/// A browser session: what it may open, how long one navigation may take in
/// nanoseconds, and the targets of the pages that the browser had opened itself.
#[derive(Debug)]
pub struct BrowserSession {
    policy: NavigationPolicy,
    navigation_timeout: u128,
    initial: Vec<String>,
}

impl View for BrowserSession {
    type V = SessionModel;

    closed spec fn view(&self) -> SessionModel {
        SessionModel {
            allow_local: self.policy.allows_local(),
            navigation_timeout: self.navigation_timeout,
            initial: text::views(self.initial@),
        }
    }
}

/// The start of a session.
pub struct LaunchRun {
    policy: NavigationPolicy,
    settings: BrowserConfig,
    directories: Vec<FilePath>,
    stage: LaunchStage,
    executable: FilePath,
    profile: FilePath,
    fault: Option<BrowserError>,
    result: Option<Result<Vec<String>, BrowserError>>,
}

impl View for LaunchRun {
    type V = LaunchModel;

    closed spec fn view(&self) -> LaunchModel {
        LaunchModel {
            configured: paths::opt_path(self.settings.executable),
            directories: paths::path_views(self.directories@),
            stage: self.stage,
            executable: self.executable@,
            profile: self.profile@,
            fault: match self.fault {
                Some(error) => Some(error@),
                None => None,
            },
            result: match self.result {
                None => None,
                Some(Ok(targets)) => Some(Ok(text::views(targets@))),
                Some(Err(error)) => Some(Err(error@)),
            },
        }
    }
}

impl LaunchRun {
    /// The settings that the browser is started with.
    pub closed spec fn settings(&self) -> BrowserConfig {
        self.settings
    }

    /// Whether the session may open pages of this machine.
    pub closed spec fn allows_local(&self) -> bool {
        self.policy.allows_local()
    }
}

impl BrowserSession {
    /// Begins a session with these settings, looking for the browser in these
    /// directories where none is configured.
    pub fn launch(settings: BrowserConfig, policy: NavigationPolicy, directories: Vec<FilePath>) ->
        (r: LaunchRun)
        ensures
            r.settings() == settings,
            r.allows_local() == policy.allows_local(),
            r@ == (LaunchModel {
                configured: paths::opt_path(settings.executable),
                directories: paths::path_views(directories@),
                stage: LaunchStage::Probe,
                executable: Seq::empty(),
                profile: Seq::empty(),
                fault: None,
                result: None,
            }),
            r@.is_sound(),
    {
        LaunchRun {
            policy,
            settings,
            directories,
            stage: LaunchStage::Probe,
            executable: FilePath::from_bytes(Vec::new()),
            profile: FilePath::from_bytes(Vec::new()),
            fault: None,
            result: None,
        }
    }

    /// Begins to open an address.
    pub fn navigate(&self, url: &Url) -> (r: NavigationRun)
        ensures
            r@ == navigation_started(
                self@.allow_local,
                url@,
                self@.navigation_timeout,
                self@.initial,
            ),
            r@.is_sound(),
    {
        NavigationRun::opening(
            self.policy,
            url.clone(),
            self.navigation_timeout,
            copy_list(&self.initial),
        )
    }

    /// Begins to send a query with the form of the active page, if there is one.
    pub fn submit(&self, has_page: bool, form: &SearchForm, query: &str) -> (r: SubmissionRun)
        ensures
            r@ == submission_run::submission_started(
                self@.allow_local,
                has_page,
                self@.navigation_timeout,
                form@,
                query@,
            ),
            r@.is_sound(),
    {
        SubmissionRun::starting(
            self.policy,
            has_page,
            self.navigation_timeout,
            form.clone(),
            query,
        )
    }

    /// Begins to read the active page, if there is one, which has taken this many
    /// redirects.
    pub fn current_document(&self, has_page: bool, hops: usize) -> (r: NavigationRun)
        ensures
            r@ == reading_started(
                self@.allow_local,
                has_page,
                hops,
                self@.navigation_timeout,
                self@.initial,
            ),
            r@.is_sound(),
    {
        NavigationRun::reading(
            self.policy,
            has_page,
            hops,
            self.navigation_timeout,
            copy_list(&self.initial),
        )
    }

    /// Begins to end the session.
    pub fn shutdown(self) -> (r: ShutdownRun)
        ensures
            r@ == shutdown_started(),
            r@.is_sound(),
    {
        ShutdownRun { stage: ShutdownStage::ClosePage, outcome: Ok(()) }
    }

    /// Marks the pages to close before the windows are judged: all but the
    /// active one.
    pub fn pages_to_close(&self, active: &str, pages: &Vec<PageInfo>) -> (r: Vec<bool>)
        ensures
            r@.len() == pages@.len(),
            forall|i: int|
                0 <= i < pages@.len() ==> #[trigger] r@[i] == browser::is_other(active@, pages@[i]),
    {
        let (close, _) = reject_unexpected_pages(active, &self.initial, pages);
        close
    }
}

impl LaunchRun {
    /// What the start asks for.
    pub fn action(&self) -> (r: LaunchAction)
        ensures
            match (self@.stage, r) {
                (LaunchStage::Probe, LaunchAction::Probe(files)) => paths::path_views(files@)
                    == browser::candidates(
                    self@.configured,
                    browser::common_paths(),
                    self@.directories,
                ),
                (LaunchStage::Profile, LaunchAction::MakeProfile) => true,
                (LaunchStage::Start, LaunchAction::Start(plan)) => plan.executable@
                    == self@.executable && plan.profile_path@ == self@.profile && browser::plan_fits(
                    plan,
                    self.settings(),
                ),
                (LaunchStage::Forbid, LaunchAction::ForbidDownloads) => true,
                (LaunchStage::ClosePages, LaunchAction::ClosePages) => true,
                (LaunchStage::Abandon, LaunchAction::Kill) => true,
                (LaunchStage::Done, LaunchAction::Finished) => true,
                _ => false,
            },
    {
        match self.stage {
            LaunchStage::Probe => {
                let common = common_browser_paths();
                LaunchAction::Probe(
                    browser_candidates(&self.settings.executable, &common, &self.directories),
                )
            },
            LaunchStage::Profile => LaunchAction::MakeProfile,
            LaunchStage::Start => LaunchAction::Start(
                BrowserLaunchPlan::new(
                    &self.settings,
                    self.executable.clone(),
                    self.profile.clone(),
                ),
            ),
            LaunchStage::Forbid => LaunchAction::ForbidDownloads,
            LaunchStage::ClosePages => LaunchAction::ClosePages,
            LaunchStage::Abandon => LaunchAction::Kill,
            LaunchStage::Done => LaunchAction::Finished,
        }
    }

    fn fail(&mut self, error: BrowserError)
        ensures
            final(self)@ == old(self)@.failed(error@),
            final(self).settings() == old(self).settings(),
            final(self).allows_local() == old(self).allows_local(),
    {
        self.result = Some(Err(error));
        self.stage = LaunchStage::Done;
    }

    fn on_probed(&mut self, marks: Vec<bool>)
        ensures
            final(self)@ == old(self)@.probed(marks@),
            final(self).settings() == old(self).settings(),
            final(self).allows_local() == old(self).allows_local(),
    {
        let common = common_browser_paths();
        match locate_browser_with(&self.settings.executable, &common, &self.directories, &marks) {
            Ok(path) => {
                self.executable = path;
                self.stage = LaunchStage::Profile;
            },
            Err(error) => self.fail(error),
        }
    }

    fn on_started(&mut self, result: Result<(), OperationFailure>)
        ensures
            final(self)@ == old(self)@.started(result),
            final(self).settings() == old(self).settings(),
            final(self).allows_local() == old(self).allows_local(),
    {
        match result {
            Ok(_) => {
                self.stage = LaunchStage::Forbid;
            },
            Err(OperationFailure::TimedOut) => self.fail(
                BrowserError::Timeout { stage: "launch" },
            ),
            Err(OperationFailure::Failed(message)) => self.fail(BrowserError::Launch(message)),
        }
    }

    /// Takes in what happened.
    pub fn handle(&mut self, event: LaunchEvent)
        requires
            old(self)@.is_sound(),
        ensures
            final(self)@ == old(self)@.step(event),
            final(self)@.is_sound(),
            final(self).settings() == old(self).settings(),
            final(self).allows_local() == old(self).allows_local(),
    {
        match event {
            LaunchEvent::Probed(marks) => if self.stage == LaunchStage::Probe {
                self.on_probed(marks);
            },
            LaunchEvent::ProfileMade(result) => if self.stage == LaunchStage::Profile {
                match result {
                    Ok(path) => {
                        self.profile = path;
                        self.stage = LaunchStage::Start;
                    },
                    Err(message) => self.fail(BrowserError::Launch(message)),
                }
            },
            LaunchEvent::Started(result) => if self.stage == LaunchStage::Start {
                self.on_started(result);
            },
            LaunchEvent::Forbidden(result) => if self.stage == LaunchStage::Forbid {
                match result {
                    Ok(_) => {
                        self.stage = LaunchStage::ClosePages;
                    },
                    Err(message) => {
                        self.fault = Some(
                            BrowserError::Operation { stage: "download policy", message },
                        );
                        self.stage = LaunchStage::Abandon;
                    },
                }
            },
            LaunchEvent::PagesClosed(targets) => if self.stage == LaunchStage::ClosePages {
                self.result = Some(Ok(targets));
                self.stage = LaunchStage::Done;
            },
            LaunchEvent::Killed => if self.stage == LaunchStage::Abandon {
                let mut fault: Option<BrowserError> = None;
                std::mem::swap(&mut fault, &mut self.fault);
                if let Some(error) = fault {
                    self.fail(error);
                }
            },
        }
        proof {
            assert(self@ =~= old(self)@.step(event));
        }
    }

    /// What the start came to, once it is over.
    pub fn finish(self) -> (r: Option<Result<BrowserSession, BrowserError>>)
        ensures
            match (r, self@.result) {
                (Some(Ok(session)), Some(Ok(targets))) => session@ == (SessionModel {
                    allow_local: self.allows_local(),
                    navigation_timeout: nanoseconds(self.settings().navigation_timeout_seconds),
                    initial: targets,
                }),
                (Some(Err(error)), Some(Err(fault))) => error@ == fault,
                (None, None) => true,
                _ => false,
            },
    {
        match self.result {
            Some(Ok(initial)) => Some(
                Ok(
                    BrowserSession {
                        policy: self.policy,
                        navigation_timeout: to_nanoseconds(
                            self.settings.navigation_timeout_seconds,
                        ),
                        initial,
                    },
                ),
            ),
            Some(Err(error)) => Some(Err(error)),
            None => None,
        }
    }
}

/// A session begins only after the browser was forbidden to download.
pub proof fn sessions_forbid_downloads(m: LaunchModel, event: LaunchEvent)
    requires
        m.is_sound(),
    ensures
        m.stage != LaunchStage::Done && (m.step(event).result matches Some(Ok(_))) ==> m.stage
            == LaunchStage::ClosePages,
        m.stage != LaunchStage::ClosePages && m.step(event).stage == LaunchStage::ClosePages ==> (
        m.stage == LaunchStage::Forbid && (event matches LaunchEvent::Forbidden(Ok(_)))),
{
}

/// A browser that was started and cannot be used is killed before the error is
/// given: from the start on, the only ways to the end are a session and the kill.
pub proof fn started_browsers_are_not_left(m: LaunchModel, event: LaunchEvent)
    requires
        m.is_sound(),
        m.stage == LaunchStage::Forbid || m.stage == LaunchStage::ClosePages || m.stage
            == LaunchStage::Abandon,
        m.step(event).result matches Some(Err(_)),
    ensures
        m.stage == LaunchStage::Abandon,
        event is Killed,
{
}

// -------------------------------------------------------------------- one page

/// What the reading of a page waits for.
#[derive(Debug, Clone, Copy, PartialEq, Eq, Structural)]
pub enum NavigationStage {
    /// Whether the browser still runs.
    Running,
    /// How much time is left for the navigation.
    Budget,
    /// Whether the wanted address may be opened.
    Check,
    Open,
    Go,
    WindowBudget,
    Windows,
    AddressBudget,
    Address,
    /// How much time is left to check the address that the page ended at.
    FinalBudget,
    /// Whether the address that the page ended at may be read.
    FinalCheck,
    ContentBudget,
    Content,
    /// Whether the browser still runs, after the page was read.
    StillRunning,
    /// The page is to be closed before the error is given.
    Abandon,
    Done,
}

/// What happened outside.
pub enum NavigationEvent {
    /// Whether the browser runs.
    Running(bool),
    /// How many nanoseconds remain of the session.
    Remaining(u128),
    /// What the host name of the address resolves to.
    Looked(Lookup),
    /// A blank page was opened, or could not be.
    Opened(Result<(), OperationFailure>),
    /// The page asks for a document: by a redirect or not, from this address,
    /// with what its host name resolves to.
    Requested { redirected: bool, url: Url, lookup: Lookup },
    /// The navigation ended.
    Went(Result<(), OperationFailure>),
    /// The active target and the top-level pages.
    Windows(Result<(String, Vec<PageInfo>), OperationFailure>),
    /// The address that the page reports.
    Addressed(Result<Option<String>, OperationFailure>),
    /// The HTML of the page.
    Contents(Result<String, OperationFailure>),
    /// The page was closed.
    Closed,
}

/// The state of a reading. With no wanted address, the active page is read as it
/// stands.
#[verifier::ext_equal]
pub struct NavigationModel {
    pub allow_local: bool,
    pub wanted: Option<weburl::UrlModel>,
    pub navigation_timeout: u128,
    pub initial: Seq<Seq<char>>,
    pub stage: NavigationStage,
    /// How long opening the page and checking its addresses may take.
    pub page_limit: u128,
    /// How long the next read may take.
    pub read_limit: u128,
    pub hops: usize,
    pub found: Option<weburl::UrlModel>,
    pub html: Seq<char>,
    pub fault: Option<BrowserFault>,
    pub result: Option<Result<browser::DocumentModel, BrowserFault>>,
}

impl NavigationModel {
    /// The same state at another stage.
    pub open spec fn at(self, stage: NavigationStage) -> NavigationModel {
        NavigationModel { stage, ..self }
    }

    /// The reading failed.
    pub open spec fn failed(self, fault: BrowserFault) -> NavigationModel {
        NavigationModel { stage: NavigationStage::Done, result: Some(Err(fault)), ..self }
    }

    /// The reading failed, and the page is to be closed.
    pub open spec fn abandoned(self, fault: BrowserFault) -> NavigationModel {
        NavigationModel { stage: NavigationStage::Abandon, fault: Some(fault), ..self }
    }

    /// A check of the windows failed: a page that was opened for this is closed.
    pub open spec fn windows_failed(self, fault: BrowserFault) -> NavigationModel {
        if self.wanted is Some {
            self.abandoned(fault)
        } else {
            self.failed(fault)
        }
    }

    /// The document that was read.
    pub open spec fn succeeded(self) -> NavigationModel {
        match self.found {
            Some(url) => NavigationModel {
                stage: NavigationStage::Done,
                result: Some(Ok(browser::DocumentModel { url, html: self.html })),
                ..self
            },
            None => self.failed(BrowserFault::NoActivePage),
        }
    }

    /// Whether the browser runs was told.
    pub open spec fn running(self, running: bool) -> NavigationModel {
        if !running {
            self.failed(BrowserFault::PrematureExit)
        } else if self.stage == NavigationStage::Running {
            self.at(NavigationStage::Budget)
        } else {
            self.succeeded()
        }
    }

    /// The remaining time was told.
    pub open spec fn timed(self, remaining: u128) -> NavigationModel {
        match self.stage {
            NavigationStage::Budget => match browser::time_allowed(
                remaining,
                self.navigation_timeout,
                "navigation"@,
            ) {
                Ok(limit) => NavigationModel { page_limit: limit, ..self }.at(
                    NavigationStage::Check,
                ),
                Err(fault) => self.failed(fault),
            },
            NavigationStage::WindowBudget => match browser::time_allowed(
                remaining,
                self.navigation_timeout,
                "window check"@,
            ) {
                Ok(limit) => NavigationModel { read_limit: limit, ..self }.at(
                    NavigationStage::Windows,
                ),
                Err(fault) => self.windows_failed(fault),
            },
            NavigationStage::AddressBudget => match browser::time_allowed(
                remaining,
                self.navigation_timeout,
                "URL read"@,
            ) {
                Ok(limit) => NavigationModel { read_limit: limit, ..self }.at(
                    NavigationStage::Address,
                ),
                Err(fault) => self.failed(fault),
            },
            NavigationStage::FinalBudget => match browser::time_allowed(
                remaining,
                self.navigation_timeout,
                "document read"@,
            ) {
                Ok(limit) => NavigationModel { page_limit: limit, ..self }.at(
                    NavigationStage::FinalCheck,
                ),
                Err(fault) => self.failed(fault),
            },
            NavigationStage::ContentBudget => match browser::time_allowed(
                remaining,
                self.navigation_timeout,
                "document read"@,
            ) {
                Ok(limit) => NavigationModel { read_limit: limit, ..self }.at(
                    NavigationStage::Content,
                ),
                Err(fault) => self.failed(fault),
            },
            _ => self,
        }
    }

    /// A host name was looked up.
    pub open spec fn looked(self, lookup: Lookup) -> NavigationModel {
        let (address, next) = if self.stage == NavigationStage::Check {
            (self.wanted, NavigationStage::Open)
        } else {
            (self.found, NavigationStage::ContentBudget)
        };
        match address {
            Some(url) => match browser::policy_outcome(self.allow_local, url, lookup) {
                Ok(_) => self.at(next),
                Err(fault) => self.failed(fault),
            },
            None => self.failed(BrowserFault::NoActivePage),
        }
    }

    /// A blank page was opened.
    pub open spec fn opened(self, result: Result<(), OperationFailure>) -> NavigationModel {
        match result {
            Ok(_) => self.at(NavigationStage::Go),
            Err(failure) => self.failed(browser::operation_fault("page creation"@, failure)),
        }
    }

    /// Whether documents may be asked for: while an address is opened, and before
    /// the active page is read. In between they wait.
    pub open spec fn is_under_way(self) -> bool {
        self.stage == NavigationStage::Go || self.stage == NavigationStage::AddressBudget
            && self.wanted is None
    }

    /// The page asked for a document.
    pub open spec fn requested(self, redirected: bool, url: weburl::UrlModel, lookup: Lookup) ->
        NavigationModel {
        match browser::hop_outcome(
            self.hops,
            redirected,
            browser::policy_outcome(self.allow_local, url, lookup),
        ) {
            Ok(hops) => NavigationModel { hops, ..self },
            Err(fault) => self.abandoned(fault),
        }
    }

    /// The navigation ended.
    pub open spec fn went(self, result: Result<(), OperationFailure>) -> NavigationModel {
        match result {
            Ok(_) => self.at(NavigationStage::WindowBudget),
            Err(failure) => self.abandoned(browser::operation_fault("navigation"@, failure)),
        }
    }

    /// The top-level pages were listed.
    pub open spec fn windowed(self, result: Result<(String, Vec<PageInfo>), OperationFailure>) ->
        NavigationModel {
        match result {
            Err(failure) => self.windows_failed(browser::operation_fault("window check"@, failure)),
            Ok(found) => match browser::windows_outcome(found.0@, self.initial, found.1@) {
                Err(fault) => self.windows_failed(fault),
                Ok(_) => if self.wanted is Some {
                    self.at(NavigationStage::AddressBudget)
                } else {
                    self.succeeded()
                },
            },
        }
    }

    /// The address of the page was read.
    pub open spec fn addressed(self, result: Result<Option<String>, OperationFailure>) ->
        NavigationModel {
        match result {
            Err(failure) => self.failed(browser::operation_fault("URL read"@, failure)),
            Ok(reported) => match browser::page_address(text::opt_view(reported)) {
                Err(fault) => self.failed(fault),
                Ok(url) => NavigationModel { found: Some(url), ..self }.at(
                    if self.wanted is Some {
                        NavigationStage::FinalCheck
                    } else {
                        NavigationStage::FinalBudget
                    },
                ),
            },
        }
    }

    /// The HTML of the page was read.
    pub open spec fn read(self, result: Result<String, OperationFailure>) -> NavigationModel {
        match result {
            Err(failure) => self.failed(browser::operation_fault("document read"@, failure)),
            Ok(html) => match browser::size_outcome(html@) {
                Err(fault) => self.failed(fault),
                Ok(_) => NavigationModel { html: html@, ..self }.at(
                    if self.wanted is Some {
                        NavigationStage::StillRunning
                    } else {
                        NavigationStage::WindowBudget
                    },
                ),
            },
        }
    }

    /// What an event leads to. One that was not asked for changes nothing.
    pub open spec fn step(self, event: NavigationEvent) -> NavigationModel {
        match (self.stage, event) {
            (NavigationStage::Running, NavigationEvent::Running(running)) => self.running(running),
            (NavigationStage::StillRunning, NavigationEvent::Running(running)) => self.running(
                running,
            ),
            (_, NavigationEvent::Remaining(remaining)) => self.timed(remaining),
            (NavigationStage::Check, NavigationEvent::Looked(lookup)) => self.looked(lookup),
            (NavigationStage::FinalCheck, NavigationEvent::Looked(lookup)) => self.looked(lookup),
            (NavigationStage::Open, NavigationEvent::Opened(result)) => self.opened(result),
            (_, NavigationEvent::Requested { redirected, url, lookup }) => if self.is_under_way() {
                self.requested(redirected, url@, lookup)
            } else {
                self
            },
            (NavigationStage::Go, NavigationEvent::Went(result)) => self.went(result),
            (NavigationStage::Windows, NavigationEvent::Windows(result)) => self.windowed(result),
            (NavigationStage::Address, NavigationEvent::Addressed(result)) => self.addressed(
                result,
            ),
            (NavigationStage::Content, NavigationEvent::Contents(result)) => self.read(result),
            (NavigationStage::Abandon, NavigationEvent::Closed) => match self.fault {
                Some(fault) => (NavigationModel { fault: None, ..self }).failed(fault),
                None => self,
            },
            _ => self,
        }
    }

    /// What holds of every state: stages that need an address have one, and a
    /// result is there exactly when the reading is over.
    pub open spec fn is_sound(self) -> bool {
        &&& self.stage == NavigationStage::Abandon ==> self.fault is Some
        &&& self.result is Some <==> self.stage == NavigationStage::Done
        &&& self.hops <= browser::MAX_REDIRECTS
        &&& (self.stage == NavigationStage::Running || self.stage == NavigationStage::Budget
            || self.stage == NavigationStage::Check || self.stage == NavigationStage::Open
            || self.stage == NavigationStage::Go || self.stage == NavigationStage::StillRunning)
            ==> self.wanted is Some
        &&& (self.stage == NavigationStage::FinalBudget || self.stage == NavigationStage::FinalCheck
            || self.stage == NavigationStage::ContentBudget || self.stage
            == NavigationStage::Content || self.stage == NavigationStage::StillRunning) ==> self.found
            is Some
        &&& (self.stage == NavigationStage::WindowBudget || self.stage == NavigationStage::Windows)
            && self.wanted is None ==> self.found is Some
        &&& self.stage == NavigationStage::FinalBudget ==> self.wanted is None
        &&& browser::size_outcome(self.html) is Ok
    }
}

/// What is to be done outside.
#[derive(Debug, PartialEq, Eq)]
pub enum NavigationAction {
    /// Say whether the browser runs.
    TellRunning,
    /// Say how much time remains of the session.
    TellTime,
    /// Look up the host name of the address, where the policy needs it.
    Check { url: Url, limit: u128 },
    /// Close the active page and open a blank one.
    Open { limit: u128 },
    /// Go to the address. Every document that the page asks for on the way is
    /// held until it was judged.
    Go { url: Url, limit: u128 },
    /// List the top-level pages and close those beside the active one.
    ReadWindows { limit: u128 },
    /// Read the address of the active page.
    ReadAddress { limit: u128 },
    /// Read the HTML of the active page.
    ReadContent { limit: u128 },
    /// Close the active page.
    ClosePage,
    /// Nothing: the reading is over.
    Finished,
}

/// An action by its values.
pub enum NavigationActionModel {
    TellRunning,
    TellTime,
    Check(weburl::UrlModel, u128),
    Open(u128),
    Go(weburl::UrlModel, u128),
    ReadWindows(u128),
    ReadAddress(u128),
    ReadContent(u128),
    ClosePage,
    Finished,
}

impl View for NavigationAction {
    type V = NavigationActionModel;

    open spec fn view(&self) -> NavigationActionModel {
        match self {
            NavigationAction::TellRunning => NavigationActionModel::TellRunning,
            NavigationAction::TellTime => NavigationActionModel::TellTime,
            NavigationAction::Check { url, limit } => NavigationActionModel::Check(url@, *limit),
            NavigationAction::Open { limit } => NavigationActionModel::Open(*limit),
            NavigationAction::Go { url, limit } => NavigationActionModel::Go(url@, *limit),
            NavigationAction::ReadWindows { limit } => NavigationActionModel::ReadWindows(*limit),
            NavigationAction::ReadAddress { limit } => NavigationActionModel::ReadAddress(*limit),
            NavigationAction::ReadContent { limit } => NavigationActionModel::ReadContent(*limit),
            NavigationAction::ClosePage => NavigationActionModel::ClosePage,
            NavigationAction::Finished => NavigationActionModel::Finished,
        }
    }
}

/// What a state asks for.
pub open spec fn navigation_action(m: NavigationModel) -> NavigationActionModel {
    match m.stage {
        NavigationStage::Running | NavigationStage::StillRunning =>
            NavigationActionModel::TellRunning,
        NavigationStage::Budget | NavigationStage::WindowBudget | NavigationStage::AddressBudget
        | NavigationStage::FinalBudget | NavigationStage::ContentBudget =>
            NavigationActionModel::TellTime,
        NavigationStage::Check => match m.wanted {
            Some(url) => NavigationActionModel::Check(url, m.page_limit),
            None => NavigationActionModel::Finished,
        },
        NavigationStage::Open => NavigationActionModel::Open(m.page_limit),
        NavigationStage::Go => match m.wanted {
            Some(url) => NavigationActionModel::Go(url, m.page_limit),
            None => NavigationActionModel::Finished,
        },
        NavigationStage::Windows => NavigationActionModel::ReadWindows(m.read_limit),
        NavigationStage::Address => NavigationActionModel::ReadAddress(m.read_limit),
        NavigationStage::FinalCheck => match m.found {
            Some(url) => NavigationActionModel::Check(url, m.page_limit),
            None => NavigationActionModel::Finished,
        },
        NavigationStage::Content => NavigationActionModel::ReadContent(m.read_limit),
        NavigationStage::Abandon => NavigationActionModel::ClosePage,
        NavigationStage::Done => NavigationActionModel::Finished,
    }
}

/// The state in which the opening of an address starts.
pub open spec fn navigation_started(
    allow_local: bool,
    wanted: weburl::UrlModel,
    navigation_timeout: u128,
    initial: Seq<Seq<char>>,
) -> NavigationModel {
    NavigationModel {
        allow_local,
        wanted: Some(wanted),
        navigation_timeout,
        initial,
        stage: NavigationStage::Running,
        page_limit: 0,
        read_limit: 0,
        hops: 0,
        found: None,
        html: Seq::empty(),
        fault: None,
        result: None,
    }
}

/// The state in which the reading of the active page starts, if there is one. The
/// redirects that the page has taken so far count.
pub open spec fn reading_started(
    allow_local: bool,
    has_page: bool,
    hops: usize,
    navigation_timeout: u128,
    initial: Seq<Seq<char>>,
) -> NavigationModel {
    let start = NavigationModel {
        allow_local,
        wanted: None,
        navigation_timeout,
        initial,
        stage: NavigationStage::AddressBudget,
        page_limit: 0,
        read_limit: 0,
        hops: if hops < browser::MAX_REDIRECTS {
            hops
        } else {
            browser::MAX_REDIRECTS
        },
        found: None,
        html: Seq::empty(),
        fault: None,
        result: None,
    };
    if has_page {
        start
    } else {
        start.failed(BrowserFault::NoActivePage)
    }
}

/// The reading of a page.
pub struct NavigationRun {
    policy: NavigationPolicy,
    wanted: Option<Url>,
    navigation_timeout: u128,
    initial: Vec<String>,
    stage: NavigationStage,
    page_limit: u128,
    read_limit: u128,
    hops: usize,
    found: Option<Url>,
    html: String,
    fault: Option<BrowserError>,
    result: Option<Result<RenderedDocument, BrowserError>>,
}

/// An optional address by its values.
pub open spec fn opt_url(url: Option<Url>) -> Option<weburl::UrlModel> {
    match url {
        Some(url) => Some(url@),
        None => None,
    }
}

impl View for NavigationRun {
    type V = NavigationModel;

    closed spec fn view(&self) -> NavigationModel {
        NavigationModel {
            allow_local: self.policy.allows_local(),
            wanted: opt_url(self.wanted),
            navigation_timeout: self.navigation_timeout,
            initial: text::views(self.initial@),
            stage: self.stage,
            page_limit: self.page_limit,
            read_limit: self.read_limit,
            hops: self.hops,
            found: opt_url(self.found),
            html: self.html@,
            fault: match self.fault {
                Some(error) => Some(error@),
                None => None,
            },
            result: match self.result {
                None => None,
                Some(Ok(document)) => Some(Ok(document@)),
                Some(Err(error)) => Some(Err(error@)),
            },
        }
    }
}

proof fn empty_documents_fit()
    ensures
        browser::size_outcome(Seq::<char>::empty()) is Ok,
{
    assert(vstd::utf8::encode_utf8(Seq::<char>::empty()).len() == 0);
}

impl NavigationRun {
    /// Begins to open an address.
    fn opening(
        policy: NavigationPolicy,
        url: Url,
        navigation_timeout: u128,
        initial: Vec<String>,
    ) -> (r: NavigationRun)
        ensures
            r@ == navigation_started(
                policy.allows_local(),
                url@,
                navigation_timeout,
                text::views(initial@),
            ),
            r@.is_sound(),
    {
        let run = NavigationRun {
            policy,
            wanted: Some(url),
            navigation_timeout,
            initial,
            stage: NavigationStage::Running,
            page_limit: 0,
            read_limit: 0,
            hops: 0,
            found: None,
            html: "".to_string(),
            fault: None,
            result: None,
        };
        proof {
            reveal_strlit("");
            empty_documents_fit();
            assert(run@.html =~= Seq::empty());
        }
        run
    }

    /// Begins to read the active page, if there is one.
    fn reading(
        policy: NavigationPolicy,
        has_page: bool,
        hops: usize,
        navigation_timeout: u128,
        initial: Vec<String>,
    ) -> (r: NavigationRun)
        ensures
            r@ == reading_started(
                policy.allows_local(),
                has_page,
                hops,
                navigation_timeout,
                text::views(initial@),
            ),
            r@.is_sound(),
    {
        let mut run = NavigationRun {
            policy,
            wanted: None,
            navigation_timeout,
            initial,
            stage: NavigationStage::AddressBudget,
            page_limit: 0,
            read_limit: 0,
            hops: if hops < browser::MAX_REDIRECTS {
                hops
            } else {
                browser::MAX_REDIRECTS
            },
            found: None,
            html: "".to_string(),
            fault: None,
            result: None,
        };
        proof {
            reveal_strlit("");
            empty_documents_fit();
            assert(run@.html =~= Seq::empty());
        }
        if !has_page {
            run.fail(BrowserError::NoActivePage);
        }
        run
    }

    /// What the reading asks for.
    pub fn action(&self) -> (r: NavigationAction)
        ensures
            r@ == navigation_action(self@),
    {
        match self.stage {
            NavigationStage::Running | NavigationStage::StillRunning =>
                NavigationAction::TellRunning,
            NavigationStage::Budget | NavigationStage::WindowBudget
            | NavigationStage::AddressBudget | NavigationStage::FinalBudget
            | NavigationStage::ContentBudget => NavigationAction::TellTime,
            NavigationStage::Check => match &self.wanted {
                Some(url) => NavigationAction::Check { url: url.clone(), limit: self.page_limit },
                None => NavigationAction::Finished,
            },
            NavigationStage::Open => NavigationAction::Open { limit: self.page_limit },
            NavigationStage::Go => match &self.wanted {
                Some(url) => NavigationAction::Go { url: url.clone(), limit: self.page_limit },
                None => NavigationAction::Finished,
            },
            NavigationStage::Windows => NavigationAction::ReadWindows { limit: self.read_limit },
            NavigationStage::Address => NavigationAction::ReadAddress { limit: self.read_limit },
            NavigationStage::FinalCheck => match &self.found {
                Some(url) => NavigationAction::Check { url: url.clone(), limit: self.page_limit },
                None => NavigationAction::Finished,
            },
            NavigationStage::Content => NavigationAction::ReadContent { limit: self.read_limit },
            NavigationStage::Abandon => NavigationAction::ClosePage,
            NavigationStage::Done => NavigationAction::Finished,
        }
    }

    fn fail(&mut self, error: BrowserError)
        ensures
            final(self)@ == old(self)@.failed(error@),
    {
        self.result = Some(Err(error));
        self.stage = NavigationStage::Done;
    }

    fn abandon(&mut self, error: BrowserError)
        ensures
            final(self)@ == old(self)@.abandoned(error@),
    {
        self.fault = Some(error);
        self.stage = NavigationStage::Abandon;
    }

    fn fail_windows(&mut self, error: BrowserError)
        ensures
            final(self)@ == old(self)@.windows_failed(error@),
    {
        if self.wanted.is_some() {
            self.abandon(error);
        } else {
            self.fail(error);
        }
    }

    fn succeed(&mut self)
        ensures
            final(self)@ == old(self)@.succeeded(),
    {
        match &self.found {
            Some(url) => {
                let document = RenderedDocument { url: url.clone(), html: self.html.clone() };
                self.result = Some(Ok(document));
                self.stage = NavigationStage::Done;
            },
            None => self.fail(BrowserError::NoActivePage),
        }
    }

    fn on_running(&mut self, running: bool)
        ensures
            final(self)@ == old(self)@.running(running),
    {
        if !running {
            self.fail(BrowserError::PrematureExit);
        } else if self.stage == NavigationStage::Running {
            self.stage = NavigationStage::Budget;
        } else {
            self.succeed();
        }
    }

    fn on_remaining(&mut self, remaining: u128)
        ensures
            final(self)@ == old(self)@.timed(remaining),
    {
        match self.stage {
            NavigationStage::Budget => match operation_timeout(
                remaining,
                self.navigation_timeout,
                "navigation",
            ) {
                Ok(limit) => {
                    self.page_limit = limit;
                    self.stage = NavigationStage::Check;
                },
                Err(error) => self.fail(error),
            },
            NavigationStage::WindowBudget => match operation_timeout(
                remaining,
                self.navigation_timeout,
                "window check",
            ) {
                Ok(limit) => {
                    self.read_limit = limit;
                    self.stage = NavigationStage::Windows;
                },
                Err(error) => self.fail_windows(error),
            },
            NavigationStage::AddressBudget => match operation_timeout(
                remaining,
                self.navigation_timeout,
                "URL read",
            ) {
                Ok(limit) => {
                    self.read_limit = limit;
                    self.stage = NavigationStage::Address;
                },
                Err(error) => self.fail(error),
            },
            NavigationStage::FinalBudget => match operation_timeout(
                remaining,
                self.navigation_timeout,
                "document read",
            ) {
                Ok(limit) => {
                    self.page_limit = limit;
                    self.stage = NavigationStage::FinalCheck;
                },
                Err(error) => self.fail(error),
            },
            NavigationStage::ContentBudget => match operation_timeout(
                remaining,
                self.navigation_timeout,
                "document read",
            ) {
                Ok(limit) => {
                    self.read_limit = limit;
                    self.stage = NavigationStage::Content;
                },
                Err(error) => self.fail(error),
            },
            _ => {},
        }
        proof {
            assert(self@ =~= old(self)@.timed(remaining));
        }
    }

    fn on_looked(&mut self, lookup: Lookup)
        ensures
            final(self)@ == old(self)@.looked(lookup),
    {
        let (address, next) = if self.stage == NavigationStage::Check {
            (&self.wanted, NavigationStage::Open)
        } else {
            (&self.found, NavigationStage::ContentBudget)
        };
        match address {
            Some(url) => match self.policy.validate(url, &lookup) {
                Ok(_) => {
                    self.stage = next;
                },
                Err(error) => self.fail(error),
            },
            None => self.fail(BrowserError::NoActivePage),
        }
    }

    fn on_requested(&mut self, redirected: bool, url: Url, lookup: Lookup)
        ensures
            final(self)@ == old(self)@.requested(redirected, url@, lookup),
    {
        let verdict = self.policy.validate(&url, &lookup);
        match accept_hop(self.hops, redirected, verdict) {
            Ok(hops) => {
                self.hops = hops;
            },
            Err(error) => self.abandon(error),
        }
    }

    fn on_windows(&mut self, result: Result<(String, Vec<PageInfo>), OperationFailure>)
        ensures
            final(self)@ == old(self)@.windowed(result),
    {
        match result {
            Err(failure) => self.fail_windows(operation_error("window check", failure)),
            Ok(found) => {
                let (_, verdict) = reject_unexpected_pages(
                    found.0.as_str(),
                    &self.initial,
                    &found.1,
                );
                match verdict {
                    Err(error) => self.fail_windows(error),
                    Ok(_) => if self.wanted.is_some() {
                        self.stage = NavigationStage::AddressBudget;
                    } else {
                        self.succeed();
                    },
                }
            },
        }
    }

    fn on_addressed(&mut self, result: Result<Option<String>, OperationFailure>)
        ensures
            final(self)@ == old(self)@.addressed(result),
    {
        match result {
            Err(failure) => self.fail(operation_error("URL read", failure)),
            Ok(reported) => match read_page_address(&reported) {
                Err(error) => self.fail(error),
                Ok(url) => {
                    self.found = Some(url);
                    self.stage = if self.wanted.is_some() {
                        NavigationStage::FinalCheck
                    } else {
                        NavigationStage::FinalBudget
                    };
                },
            },
        }
    }

    fn on_contents(&mut self, result: Result<String, OperationFailure>)
        ensures
            final(self)@ == old(self)@.read(result),
    {
        match result {
            Err(failure) => self.fail(operation_error("document read", failure)),
            Ok(html) => match check_document_size(html.as_str()) {
                Err(error) => self.fail(error),
                Ok(_) => {
                    self.html = html;
                    self.stage = if self.wanted.is_some() {
                        NavigationStage::StillRunning
                    } else {
                        NavigationStage::WindowBudget
                    };
                },
            },
        }
    }

    fn on_closed(&mut self)
        requires
            old(self)@.stage == NavigationStage::Abandon,
        ensures
            final(self)@ == old(self)@.step(NavigationEvent::Closed),
    {
        let mut fault: Option<BrowserError> = None;
        std::mem::swap(&mut fault, &mut self.fault);
        if let Some(error) = fault {
            self.fail(error);
        }
    }

    /// Takes in what happened.
    pub fn handle(&mut self, event: NavigationEvent)
        requires
            old(self)@.is_sound(),
        ensures
            final(self)@ == old(self)@.step(event),
            final(self)@.is_sound(),
    {
        proof {
            readings_stay_sound(self@, event);
        }
        match event {
            NavigationEvent::Running(running) => if self.stage == NavigationStage::Running
                || self.stage == NavigationStage::StillRunning {
                self.on_running(running);
            },
            NavigationEvent::Remaining(remaining) => self.on_remaining(remaining),
            NavigationEvent::Looked(lookup) => if self.stage == NavigationStage::Check || self.stage
                == NavigationStage::FinalCheck {
                self.on_looked(lookup);
            },
            NavigationEvent::Opened(result) => if self.stage == NavigationStage::Open {
                match result {
                    Ok(_) => {
                        self.stage = NavigationStage::Go;
                    },
                    Err(failure) => self.fail(operation_error("page creation", failure)),
                }
            },
            NavigationEvent::Requested { redirected, url, lookup } => if self.stage
                == NavigationStage::Go || (self.stage == NavigationStage::AddressBudget
                && self.wanted.is_none()) {
                self.on_requested(redirected, url, lookup);
            },
            NavigationEvent::Went(result) => if self.stage == NavigationStage::Go {
                match result {
                    Ok(_) => {
                        self.stage = NavigationStage::WindowBudget;
                    },
                    Err(failure) => self.abandon(operation_error("navigation", failure)),
                }
            },
            NavigationEvent::Windows(result) => if self.stage == NavigationStage::Windows {
                self.on_windows(result);
            },
            NavigationEvent::Addressed(result) => if self.stage == NavigationStage::Address {
                self.on_addressed(result);
            },
            NavigationEvent::Contents(result) => if self.stage == NavigationStage::Content {
                self.on_contents(result);
            },
            NavigationEvent::Closed => if self.stage == NavigationStage::Abandon {
                self.on_closed();
            },
        }
    }

    /// How many redirects the page has taken.
    pub fn hops(&self) -> (r: usize)
        ensures
            r == self@.hops,
    {
        self.hops
    }

    /// What the reading came to, once it is over.
    pub fn finish(self) -> (r: Option<Result<RenderedDocument, BrowserError>>)
        ensures
            match (r, self@.result) {
                (Some(Ok(document)), Some(Ok(expected))) => document@ == expected,
                (Some(Err(error)), Some(Err(fault))) => error@ == fault,
                (None, None) => true,
                _ => false,
            },
    {
        self.result
    }
}

proof fn timing_stays_sound(m: NavigationModel, remaining: u128)
    requires
        m.is_sound(),
    ensures
        m.timed(remaining).is_sound(),
{
}

proof fn checks_stay_sound(m: NavigationModel, event: NavigationEvent)
    requires
        m.is_sound(),
        event is Running || event is Looked || event is Opened || event is Requested || event is Went
            || event is Closed,
    ensures
        m.step(event).is_sound(),
{
}

proof fn reads_stay_sound(m: NavigationModel, event: NavigationEvent)
    requires
        m.is_sound(),
        event is Windows || event is Addressed || event is Contents,
    ensures
        m.step(event).is_sound(),
{
}

/// Every event keeps a reading sound.
pub proof fn readings_stay_sound(m: NavigationModel, event: NavigationEvent)
    requires
        m.is_sound(),
    ensures
        m.step(event).is_sound(),
{
    match event {
        NavigationEvent::Remaining(remaining) => timing_stays_sound(m, remaining),
        NavigationEvent::Windows(_) | NavigationEvent::Addressed(_) | NavigationEvent::Contents(_) =>
            reads_stay_sound(m, event),
        _ => checks_stay_sound(m, event),
    }
}

/// A reading asks for something until it has a result.
pub proof fn readings_lead_on(m: NavigationModel)
    requires
        m.is_sound(),
    ensures
        navigation_action(m) is Finished <==> m.result is Some,
{
}

/// A page is opened only for an address that the policy permits, and what it
/// holds is read only where the address that it ended at is permitted too.
pub proof fn pages_are_permitted(m: NavigationModel, event: NavigationEvent)
    requires
        m.is_sound(),
    ensures
        m.stage != NavigationStage::Open && m.step(event).stage == NavigationStage::Open ==> match (
            m.wanted,
            event,
        ) {
            (Some(url), NavigationEvent::Looked(lookup)) => m.stage == NavigationStage::Check
                && browser::policy_outcome(m.allow_local, url, lookup) is Ok,
            _ => false,
        },
        m.stage != NavigationStage::ContentBudget && m.step(event).stage
            == NavigationStage::ContentBudget ==> match (m.found, event) {
            (Some(url), NavigationEvent::Looked(lookup)) => m.stage == NavigationStage::FinalCheck
                && browser::policy_outcome(m.allow_local, url, lookup) is Ok,
            _ => false,
        },
        m.stage != NavigationStage::Content && m.step(event).stage == NavigationStage::Content
            ==> m.stage == NavigationStage::ContentBudget,
{
}

/// While a page is being opened, and again before it is read, it takes at most
/// [`browser::MAX_REDIRECTS`] redirects, and goes on only with documents that the
/// policy permits. While it is read, no document that it asks for is given.
pub proof fn hops_are_permitted(m: NavigationModel, event: NavigationEvent)
    requires
        m.is_sound(),
        event is Requested,
    ensures
        m.is_under_way() && m.step(event).is_under_way() ==> {
            &&& browser::policy_outcome(m.allow_local, event->url@, event->lookup) is Ok
            &&& event->redirected ==> m.step(event).hops == m.hops + 1
            &&& m.step(event).hops <= browser::MAX_REDIRECTS
        },
        m.is_under_way() && !m.step(event).is_under_way() ==> navigation_action(m.step(event))
            is ClosePage,
        !m.is_under_way() ==> m.step(event) == m,
{
}

/// A document that is handed out is the one that was read, is no larger than the
/// limit, and was read while no unexpected window was open.
pub proof fn documents_are_bounded(m: NavigationModel, event: NavigationEvent)
    requires
        m.is_sound(),
        m.stage != NavigationStage::Done,
    ensures
        m.step(event).result matches Some(Ok(document)) ==> {
            &&& m.found == Some(document.url)
            &&& document.html == m.html
            &&& vstd::utf8::encode_utf8(document.html).len() <= browser::MAX_DOCUMENT_BYTES
            &&& match event {
                NavigationEvent::Windows(Ok(found)) => browser::windows_outcome(
                    found.0@,
                    m.initial,
                    found.1@,
                ) is Ok,
                _ => m.stage == NavigationStage::StillRunning,
            }
        },
        m.stage != NavigationStage::AddressBudget && m.step(event).stage
            == NavigationStage::AddressBudget ==> match event {
            NavigationEvent::Windows(Ok(found)) => browser::windows_outcome(
                found.0@,
                m.initial,
                found.1@,
            ) is Ok,
            _ => false,
        },
{
}

/// A page that was opened and turns out not to be wanted is closed before the
/// error is given.
pub proof fn refused_pages_are_closed(m: NavigationModel, event: NavigationEvent)
    requires
        m.is_sound(),
        m.wanted is Some,
        m.stage == NavigationStage::Go || m.stage == NavigationStage::WindowBudget || m.stage
            == NavigationStage::Windows,
    ensures
        m.step(event).result is None,
{
}

// --------------------------------------------------------------------- the end

/// What the end of a session waits for.
#[derive(Debug, Clone, Copy, PartialEq, Eq, Structural)]
pub enum ShutdownStage {
    ClosePage,
    Close,
    Wait,
    Kill,
    StopEvents,
    RemoveProfile,
    Done,
}

/// What happened outside.
#[derive(Debug, PartialEq, Eq)]
pub enum ShutdownEvent {
    /// The active page was closed, if there was one.
    PageClosed,
    /// The browser was asked to close.
    Asked(ExitAttempt),
    /// The process was waited for.
    Waited(ExitAttempt),
    /// The process was killed.
    Killed,
    /// The events of the browser are no longer listened to.
    EventsStopped,
    /// The directory of the profile was removed.
    ProfileRemoved,
}

/// The state of an end.
#[verifier::ext_equal]
pub struct ShutdownModel {
    pub stage: ShutdownStage,
    pub outcome: Result<(), BrowserFault>,
}

impl ShutdownModel {
    /// The same state at another stage.
    pub open spec fn at(self, stage: ShutdownStage) -> ShutdownModel {
        ShutdownModel { stage, ..self }
    }

    /// The browser was asked to close: one that did not take it is killed.
    pub open spec fn asked(self, attempt: ExitAttempt) -> ShutdownModel {
        match attempt {
            ExitAttempt::Done => self.at(ShutdownStage::Wait),
            _ => ShutdownModel { outcome: browser::exit_fault(attempt), ..self }.at(
                ShutdownStage::Kill,
            ),
        }
    }

    /// The process was waited for: one that does not end is killed.
    pub open spec fn waited(self, attempt: ExitAttempt) -> ShutdownModel {
        ShutdownModel { outcome: browser::exit_fault(attempt), ..self }.at(
            match attempt {
                ExitAttempt::TimedOut => ShutdownStage::Kill,
                _ => ShutdownStage::StopEvents,
            },
        )
    }

    /// What an event leads to. One that was not asked for changes nothing.
    pub open spec fn step(self, event: ShutdownEvent) -> ShutdownModel {
        match (self.stage, event) {
            (ShutdownStage::ClosePage, ShutdownEvent::PageClosed) => self.at(ShutdownStage::Close),
            (ShutdownStage::Close, ShutdownEvent::Asked(attempt)) => self.asked(attempt),
            (ShutdownStage::Wait, ShutdownEvent::Waited(attempt)) => self.waited(attempt),
            (ShutdownStage::Kill, ShutdownEvent::Killed) => self.at(ShutdownStage::StopEvents),
            (ShutdownStage::StopEvents, ShutdownEvent::EventsStopped) => self.at(
                ShutdownStage::RemoveProfile,
            ),
            (ShutdownStage::RemoveProfile, ShutdownEvent::ProfileRemoved) => self.at(
                ShutdownStage::Done,
            ),
            _ => self,
        }
    }

    /// What holds of every state: a process is killed only after something went
    /// wrong, and nothing went wrong before the browser was asked to close.
    pub open spec fn is_sound(self) -> bool {
        &&& self.stage == ShutdownStage::Kill ==> self.outcome is Err
        &&& (self.stage == ShutdownStage::ClosePage || self.stage == ShutdownStage::Close
            || self.stage == ShutdownStage::Wait) ==> self.outcome is Ok
    }
}

/// The state in which an end starts.
pub open spec fn shutdown_started() -> ShutdownModel {
    ShutdownModel { stage: ShutdownStage::ClosePage, outcome: Ok(()) }
}

/// The end of a session.
#[derive(Debug, PartialEq, Eq)]
pub struct ShutdownRun {
    stage: ShutdownStage,
    outcome: Result<(), BrowserError>,
}

impl View for ShutdownRun {
    type V = ShutdownModel;

    closed spec fn view(&self) -> ShutdownModel {
        ShutdownModel {
            stage: self.stage,
            outcome: match self.outcome {
                Ok(_) => Ok(()),
                Err(error) => Err(error@),
            },
        }
    }
}

impl ShutdownRun {
    /// What the end asks for: the stage says it.
    pub fn action(&self) -> (r: ShutdownStage)
        ensures
            r == self@.stage,
    {
        self.stage
    }

    /// Takes in what happened.
    pub fn handle(&mut self, event: ShutdownEvent)
        requires
            old(self)@.is_sound(),
        ensures
            final(self)@ == old(self)@.step(event),
            final(self)@.is_sound(),
    {
        match event {
            ShutdownEvent::PageClosed => if self.stage == ShutdownStage::ClosePage {
                self.stage = ShutdownStage::Close;
            },
            ShutdownEvent::Asked(attempt) => if self.stage == ShutdownStage::Close {
                self.stage = match attempt {
                    ExitAttempt::Done => ShutdownStage::Wait,
                    _ => ShutdownStage::Kill,
                };
                self.outcome = exit_error(attempt);
            },
            ShutdownEvent::Waited(attempt) => if self.stage == ShutdownStage::Wait {
                self.stage = match attempt {
                    ExitAttempt::TimedOut => ShutdownStage::Kill,
                    _ => ShutdownStage::StopEvents,
                };
                self.outcome = exit_error(attempt);
            },
            ShutdownEvent::Killed => if self.stage == ShutdownStage::Kill {
                self.stage = ShutdownStage::StopEvents;
            },
            ShutdownEvent::EventsStopped => if self.stage == ShutdownStage::StopEvents {
                self.stage = ShutdownStage::RemoveProfile;
            },
            ShutdownEvent::ProfileRemoved => if self.stage == ShutdownStage::RemoveProfile {
                self.stage = ShutdownStage::Done;
            },
        }
    }

    /// What the end came to.
    pub fn finish(self) -> (r: Result<(), BrowserError>)
        ensures
            browser::outcome_is(r, self@.outcome),
    {
        self.outcome
    }
}

/// Whatever happens, a session ends only once its profile was removed, and only
/// after its process ended by itself or was killed.
pub proof fn sessions_leave_nothing(m: ShutdownModel, event: ShutdownEvent)
    requires
        m.is_sound(),
    ensures
        m.step(event).is_sound(),
        m.stage != ShutdownStage::Done && m.step(event).stage == ShutdownStage::Done ==> m.stage
            == ShutdownStage::RemoveProfile && event is ProfileRemoved,
        m.stage != ShutdownStage::RemoveProfile && m.step(event).stage
            == ShutdownStage::RemoveProfile ==> m.stage == ShutdownStage::StopEvents,
        m.stage != ShutdownStage::StopEvents && m.step(event).stage == ShutdownStage::StopEvents
            ==> match event {
            ShutdownEvent::Killed => m.stage == ShutdownStage::Kill,
            ShutdownEvent::Waited(attempt) => m.stage == ShutdownStage::Wait && attempt
                !is TimedOut,
            _ => false,
        },
        m.outcome is Err ==> m.step(event).outcome == m.outcome,
{
}

} // verus!
