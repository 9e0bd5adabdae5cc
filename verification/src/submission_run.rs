//! The sending of a query: the form of the active page is filled in and sent, and
//! every document that the page asks for on the way is judged.

use crate::browser;
use crate::browser::{
    accept_hop, check_query, operation_error, operation_timeout, BrowserError, BrowserFault, Lookup,
    NavigationPolicy, OperationFailure,
};
use crate::discovery;
use crate::discovery::SearchForm;
use crate::weburl;
use crate::weburl::Url;
use vstd::prelude::*;

verus! {

/// What a submission waits for.
#[derive(Debug, Clone, Copy, PartialEq, Eq, Structural)]
pub enum SubmissionStage {
    /// How much time is left.
    Budget,
    /// The form is to be sent.
    Submit,
    /// The form was sent, and the page that it leads to is to be loaded.
    Load,
    /// The page is to be closed before the error is given.
    Abandon,
    Done,
}

/// What happened outside.
pub enum SubmissionEvent {
    /// How many nanoseconds remain of the session.
    Remaining(u128),
    /// The page asks for a document: by a redirect or not, from this address,
    /// with what its host name resolves to.
    Requested { redirected: bool, url: Url, lookup: Lookup },
    /// The form was sent, was no longer there, or could not be sent.
    Sent(Result<bool, OperationFailure>),
    /// The page that the form leads to was loaded, or could not be.
    Loaded(Result<(), OperationFailure>),
    /// The page was closed.
    Closed,
}

/// The state of a submission.
#[verifier::ext_equal]
pub struct SubmissionModel {
    pub allow_local: bool,
    pub navigation_timeout: u128,
    pub form: discovery::FormModel,
    pub query: Seq<char>,
    pub stage: SubmissionStage,
    pub limit: u128,
    pub hops: usize,
    pub fault: Option<BrowserFault>,
    pub result: Option<Result<(), BrowserFault>>,
}

impl SubmissionModel {
    /// The submission failed.
    pub open spec fn failed(self, fault: BrowserFault) -> SubmissionModel {
        SubmissionModel { stage: SubmissionStage::Done, result: Some(Err(fault)), ..self }
    }

    /// The submission failed, and the page is to be closed.
    pub open spec fn abandoned(self, fault: BrowserFault) -> SubmissionModel {
        SubmissionModel { stage: SubmissionStage::Abandon, fault: Some(fault), ..self }
    }

    /// The remaining time was told.
    pub open spec fn timed(self, remaining: u128) -> SubmissionModel {
        match browser::time_allowed(remaining, self.navigation_timeout, "form submission"@) {
            Ok(limit) => SubmissionModel { stage: SubmissionStage::Submit, limit, ..self },
            Err(fault) => self.failed(fault),
        }
    }

    /// The page asked for a document.
    pub open spec fn requested(self, redirected: bool, url: weburl::UrlModel, lookup: Lookup) ->
        SubmissionModel {
        match browser::hop_outcome(
            self.hops,
            redirected,
            browser::policy_outcome(self.allow_local, url, lookup),
        ) {
            Ok(hops) => SubmissionModel { hops, ..self },
            Err(fault) => self.abandoned(fault),
        }
    }

    /// The form was sent.
    pub open spec fn sent(self, result: Result<bool, OperationFailure>) -> SubmissionModel {
        match result {
            Ok(true) => SubmissionModel { stage: SubmissionStage::Load, ..self },
            Ok(false) => self.failed(
                BrowserFault::Operation("form submission"@, "search form is no longer there"@),
            ),
            Err(failure) => self.failed(browser::operation_fault("form submission"@, failure)),
        }
    }

    /// The page that the form leads to was loaded.
    pub open spec fn loaded(self, result: Result<(), OperationFailure>) -> SubmissionModel {
        match result {
            Ok(_) => SubmissionModel {
                stage: SubmissionStage::Done,
                result: Some(Ok(())),
                ..self
            },
            Err(failure) => self.failed(browser::operation_fault("form submission"@, failure)),
        }
    }

    /// Whether documents may be asked for.
    pub open spec fn is_under_way(self) -> bool {
        self.stage == SubmissionStage::Submit || self.stage == SubmissionStage::Load
    }

    /// What an event leads to. One that was not asked for changes nothing.
    pub open spec fn step(self, event: SubmissionEvent) -> SubmissionModel {
        match event {
            SubmissionEvent::Remaining(remaining) => if self.stage == SubmissionStage::Budget {
                self.timed(remaining)
            } else {
                self
            },
            SubmissionEvent::Requested { redirected, url, lookup } => if self.is_under_way() {
                self.requested(redirected, url@, lookup)
            } else {
                self
            },
            SubmissionEvent::Sent(result) => if self.stage == SubmissionStage::Submit {
                self.sent(result)
            } else {
                self
            },
            SubmissionEvent::Loaded(result) => if self.stage == SubmissionStage::Load {
                self.loaded(result)
            } else {
                self
            },
            SubmissionEvent::Closed => match self.fault {
                Some(fault) => if self.stage == SubmissionStage::Abandon {
                    (SubmissionModel { fault: None, ..self }).failed(fault)
                } else {
                    self
                },
                None => self,
            },
        }
    }

    /// What holds of every state: a result is there exactly when the submission is
    /// over, the page took no more redirects than allowed, and a query that is on
    /// its way is within its limits.
    pub open spec fn is_sound(self) -> bool {
        &&& self.stage == SubmissionStage::Abandon ==> self.fault is Some
        &&& self.result is Some <==> self.stage == SubmissionStage::Done
        &&& self.hops <= browser::MAX_REDIRECTS
        &&& self.stage != SubmissionStage::Done ==> browser::query_fits(self.query)
    }
}

/// The state in which a submission starts. A query that is too long is not sent,
/// and without an active page there is no form to send.
pub open spec fn submission_started(
    allow_local: bool,
    has_page: bool,
    navigation_timeout: u128,
    form: discovery::FormModel,
    query: Seq<char>,
) -> SubmissionModel {
    let start = SubmissionModel {
        allow_local,
        navigation_timeout,
        form,
        query,
        stage: SubmissionStage::Budget,
        limit: 0,
        hops: 0,
        fault: None,
        result: None,
    };
    if !browser::query_fits(query) {
        start.failed(
            BrowserFault::Operation(
                "form submission"@,
                "query exceeds 512 characters or 2 KiB"@,
            ),
        )
    } else if !has_page {
        start.failed(BrowserFault::NoActivePage)
    } else {
        start
    }
}

/// What is to be done outside.
#[derive(Debug, PartialEq, Eq)]
pub enum SubmissionAction {
    /// Say how much time remains of the session.
    TellTime,
    /// Put the query into the form of the active page and send it. Every document
    /// that the page asks for is held until it was judged.
    Submit { form: SearchForm, query: String, limit: u128 },
    /// Wait for the page that the form leads to. Every document that the page asks
    /// for is held until it was judged.
    Load { limit: u128 },
    /// Close the active page.
    ClosePage,
    /// Nothing: the submission is over.
    Finished,
}

/// An action by its values.
pub enum SubmissionActionModel {
    TellTime,
    Submit(discovery::FormModel, Seq<char>, u128),
    Load(u128),
    ClosePage,
    Finished,
}

impl View for SubmissionAction {
    type V = SubmissionActionModel;

    open spec fn view(&self) -> SubmissionActionModel {
        match self {
            SubmissionAction::TellTime => SubmissionActionModel::TellTime,
            SubmissionAction::Submit { form, query, limit } => SubmissionActionModel::Submit(
                form@,
                query@,
                *limit,
            ),
            SubmissionAction::Load { limit } => SubmissionActionModel::Load(*limit),
            SubmissionAction::ClosePage => SubmissionActionModel::ClosePage,
            SubmissionAction::Finished => SubmissionActionModel::Finished,
        }
    }
}

/// What a state asks for.
pub open spec fn submission_action(m: SubmissionModel) -> SubmissionActionModel {
    match m.stage {
        SubmissionStage::Budget => SubmissionActionModel::TellTime,
        SubmissionStage::Submit => SubmissionActionModel::Submit(m.form, m.query, m.limit),
        SubmissionStage::Load => SubmissionActionModel::Load(m.limit),
        SubmissionStage::Abandon => SubmissionActionModel::ClosePage,
        SubmissionStage::Done => SubmissionActionModel::Finished,
    }
}

/// The sending of a query.
pub struct SubmissionRun {
    policy: NavigationPolicy,
    navigation_timeout: u128,
    form: SearchForm,
    query: String,
    stage: SubmissionStage,
    limit: u128,
    hops: usize,
    fault: Option<BrowserError>,
    result: Option<Result<(), BrowserError>>,
}

impl View for SubmissionRun {
    type V = SubmissionModel;

    closed spec fn view(&self) -> SubmissionModel {
        SubmissionModel {
            allow_local: self.policy.allows_local(),
            navigation_timeout: self.navigation_timeout,
            form: self.form@,
            query: self.query@,
            stage: self.stage,
            limit: self.limit,
            hops: self.hops,
            fault: match self.fault {
                Some(error) => Some(error@),
                None => None,
            },
            result: match self.result {
                None => None,
                Some(Ok(_)) => Some(Ok(())),
                Some(Err(error)) => Some(Err(error@)),
            },
        }
    }
}

impl SubmissionRun {
    /// Begins to send a query with the form of the active page, if there is one.
    pub fn starting(
        policy: NavigationPolicy,
        has_page: bool,
        navigation_timeout: u128,
        form: SearchForm,
        query: &str,
    ) -> (r: SubmissionRun)
        ensures
            r@ == submission_started(
                policy.allows_local(),
                has_page,
                navigation_timeout,
                form@,
                query@,
            ),
            r@.is_sound(),
    {
        let mut run = SubmissionRun {
            policy,
            navigation_timeout,
            form,
            query: query.to_string(),
            stage: SubmissionStage::Budget,
            limit: 0,
            hops: 0,
            fault: None,
            result: None,
        };
        match check_query(query) {
            Err(error) => run.fail(error),
            Ok(_) => if !has_page {
                run.fail(BrowserError::NoActivePage);
            },
        }
        run
    }

    /// What the submission asks for.
    pub fn action(&self) -> (r: SubmissionAction)
        ensures
            r@ == submission_action(self@),
    {
        match self.stage {
            SubmissionStage::Budget => SubmissionAction::TellTime,
            SubmissionStage::Submit => SubmissionAction::Submit {
                form: self.form.clone(),
                query: self.query.clone(),
                limit: self.limit,
            },
            SubmissionStage::Load => SubmissionAction::Load { limit: self.limit },
            SubmissionStage::Abandon => SubmissionAction::ClosePage,
            SubmissionStage::Done => SubmissionAction::Finished,
        }
    }

    fn fail(&mut self, error: BrowserError)
        ensures
            final(self)@ == old(self)@.failed(error@),
    {
        self.result = Some(Err(error));
        self.stage = SubmissionStage::Done;
    }

    fn on_remaining(&mut self, remaining: u128)
        ensures
            final(self)@ == old(self)@.timed(remaining),
    {
        match operation_timeout(remaining, self.navigation_timeout, "form submission") {
            Ok(limit) => {
                self.limit = limit;
                self.stage = SubmissionStage::Submit;
            },
            Err(error) => self.fail(error),
        }
    }

    fn on_requested(&mut self, redirected: bool, url: Url, lookup: Lookup)
        ensures
            final(self)@ == old(self)@.requested(redirected, url@, lookup),
    {
        let verdict = self.policy.validate(&url, &lookup);
        match accept_hop(self.hops, redirected, verdict) {
            Ok(hops) => {
                self.hops = hops;
            },
            Err(error) => {
                self.fault = Some(error);
                self.stage = SubmissionStage::Abandon;
            },
        }
    }

    fn on_sent(&mut self, result: Result<bool, OperationFailure>)
        ensures
            final(self)@ == old(self)@.sent(result),
    {
        match result {
            Ok(sent) => if sent {
                self.stage = SubmissionStage::Load;
            } else {
                self.fail(
                    BrowserError::Operation {
                        stage: "form submission",
                        message: "search form is no longer there".to_string(),
                    },
                );
            },
            Err(failure) => self.fail(operation_error("form submission", failure)),
        }
    }

    fn on_loaded(&mut self, result: Result<(), OperationFailure>)
        ensures
            final(self)@ == old(self)@.loaded(result),
    {
        match result {
            Ok(_) => {
                self.result = Some(Ok(()));
                self.stage = SubmissionStage::Done;
            },
            Err(failure) => self.fail(operation_error("form submission", failure)),
        }
    }

    /// Takes in what happened.
    pub fn handle(&mut self, event: SubmissionEvent)
        requires
            old(self)@.is_sound(),
        ensures
            final(self)@ == old(self)@.step(event),
            final(self)@.is_sound(),
    {
        match event {
            SubmissionEvent::Remaining(remaining) => if self.stage == SubmissionStage::Budget {
                self.on_remaining(remaining);
            },
            SubmissionEvent::Requested { redirected, url, lookup } => if self.stage
                == SubmissionStage::Submit || self.stage == SubmissionStage::Load {
                self.on_requested(redirected, url, lookup);
            },
            SubmissionEvent::Sent(result) => if self.stage == SubmissionStage::Submit {
                self.on_sent(result);
            },
            SubmissionEvent::Loaded(result) => if self.stage == SubmissionStage::Load {
                self.on_loaded(result);
            },
            SubmissionEvent::Closed => if self.stage == SubmissionStage::Abandon {
                let mut fault: Option<BrowserError> = None;
                std::mem::swap(&mut fault, &mut self.fault);
                if let Some(error) = fault {
                    self.fail(error);
                }
            },
        }
    }

    /// How many redirects the page has taken.
    pub fn hops(&self) -> (r: usize)
        ensures
            r == self@.hops,
    {
        self.hops
    }

    /// What the submission came to, once it is over.
    pub fn finish(self) -> (r: Option<Result<(), BrowserError>>)
        ensures
            match (r, self@.result) {
                (Some(result), Some(expected)) => browser::outcome_is(result, expected),
                (None, None) => true,
                _ => false,
            },
    {
        self.result
    }
}

// ----------------------------------------------------------------------- laws

/// Every event keeps a submission sound, and it asks for something until it has a
/// result.
pub proof fn submissions_stay_sound(m: SubmissionModel, event: SubmissionEvent)
    requires
        m.is_sound(),
    ensures
        m.step(event).is_sound(),
        submission_action(m) is Finished <==> m.result is Some,
{
}

/// From the moment a form is sent until its page is loaded, the page takes at most
/// [`browser::MAX_REDIRECTS`] redirects, and goes on only with documents that the
/// policy permits.
pub proof fn submitted_hops_are_permitted(m: SubmissionModel, event: SubmissionEvent)
    requires
        m.is_sound(),
        m.is_under_way(),
        event is Requested,
    ensures
        m.step(event).is_under_way() ==> {
            &&& browser::policy_outcome(m.allow_local, event->url@, event->lookup) is Ok
            &&& m.step(event).hops == m.hops + (if event->redirected {
                1int
            } else {
                0
            })
            &&& m.step(event).hops <= browser::MAX_REDIRECTS
        },
        !m.step(event).is_under_way() ==> submission_action(m.step(event)) is ClosePage,
{
}

/// A refused document ends the submission: the page is closed, and then the reason
/// of the refusal is given.
pub proof fn refused_submissions_are_closed(m: SubmissionModel, event: SubmissionEvent)
    requires
        m.is_sound(),
        m.stage == SubmissionStage::Abandon,
    ensures
        event is Closed ==> m.step(event).result == Some(Err::<(), BrowserFault>(m.fault->0)),
        !(event is Closed) ==> m.step(event) == m,
{
}

} // verus!
