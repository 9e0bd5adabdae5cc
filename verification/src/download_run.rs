//! One download: the steps from an output path and a magnet link to the files
//! that a client left, and what each outcome outside leads to.

use crate::config::DownloaderPreference;
use crate::downloader;
use crate::downloader::{
    accept_output, build_arguments, check_output, judge_client, new_files, output_error, ClientEnd,
    ClientKind, ClientProbe, DownloadError, DownloadOutcome, DownloadedFile, Listing,
    LocalDownloader, OutputStep, SelectedClient, Walk,
};
use crate::model;
use crate::model::MagnetUri;
use crate::paths;
use crate::paths::FilePath;
use vstd::prelude::*;

verus! {

/// What a download waits for.
#[derive(Debug, Clone, Copy, PartialEq, Eq, Structural)]
pub enum DownloadStage {
    Inspect,
    Create,
    Resolve,
    Probe,
    ListBefore,
    Launch,
    ListAfter,
    Done,
}

/// What happened outside.
pub enum DownloadEvent {
    /// What is at the output path.
    Inspected { exists: bool, is_directory: bool },
    /// The output directory was created, or could not be.
    Created(Result<(), String>),
    /// The output directory was resolved, or could not be.
    Resolved(Result<FilePath, String>),
    /// Which candidates for clients are executable files.
    Probed(ClientProbe),
    /// A directory was listed.
    Listed(Listing),
    /// The client was run and ended.
    Ended(ClientEnd),
}

/// What a download came to, by its values.
#[verifier::ext_equal]
pub struct OutcomeModel {
    pub client: ClientKind,
    pub output: Seq<u8>,
    pub new_files: Seq<(Seq<u8>, u64)>,
}

/// The state of a download.
#[verifier::ext_equal]
pub struct DownloadModel {
    pub wanted: DownloaderPreference,
    pub directories: Seq<Seq<u8>>,
    pub magnet: model::MagnetModel,
    pub requested: Seq<u8>,
    pub stage: DownloadStage,
    pub output: Seq<u8>,
    pub client: Option<(ClientKind, Seq<u8>)>,
    pub walk: downloader::WalkModel,
    pub before: Seq<(Seq<u8>, u64)>,
    pub result: Option<Result<OutcomeModel, downloader::DownloadFault>>,
}

impl DownloadModel {
    /// The state after the download failed.
    pub open spec fn failed(self, fault: downloader::DownloadFault) -> DownloadModel {
        DownloadModel { stage: DownloadStage::Done, result: Some(Err(fault)), ..self }
    }

    /// What is at the output path is known.
    pub open spec fn inspected(self, exists: bool, is_directory: bool) -> DownloadModel {
        if exists && !is_directory {
            self.failed(downloader::DownloadFault::InvalidOutput(self.requested))
        } else {
            DownloadModel {
                stage: if exists {
                    DownloadStage::Resolve
                } else {
                    DownloadStage::Create
                },
                ..self
            }
        }
    }

    /// The output directory was created.
    pub open spec fn created(self, result: Result<(), String>) -> DownloadModel {
        match result {
            Ok(_) => DownloadModel { stage: DownloadStage::Resolve, ..self },
            Err(message) => self.failed(
                downloader::DownloadFault::OutputPreparation(self.requested, message@),
            ),
        }
    }

    /// The output directory was resolved.
    pub open spec fn resolved(self, result: Result<FilePath, String>) -> DownloadModel {
        match result {
            Ok(path) => if downloader::is_topmost(path@) {
                self.failed(downloader::DownloadFault::UnsafeOutput(path@))
            } else {
                DownloadModel { stage: DownloadStage::Probe, output: path@, ..self }
            },
            Err(message) => self.failed(
                downloader::DownloadFault::OutputPreparation(self.requested, message@),
            ),
        }
    }

    /// The clients were looked for.
    pub open spec fn probed(self, probe: ClientProbe) -> DownloadModel {
        match downloader::chosen_client(self.wanted, self.directories, probe) {
            Ok(client) => DownloadModel {
                stage: DownloadStage::ListBefore,
                client: Some(client),
                ..self
            },
            Err(fault) => self.failed(fault),
        }
    }

    /// The walk over the output directory went on.
    pub open spec fn listed(self, listing: downloader::ListingModel) -> DownloadModel {
        let walk = self.walk.listed(listing);
        let moved = DownloadModel { walk: downloader::walk_start(), ..self };
        if walk.pending is Some {
            DownloadModel { walk, ..self }
        } else if let Some(failure) = walk.failure {
            moved.failed(
                downloader::DownloadFault::OutputInspection(
                    downloader::walk_failure_text(failure),
                ),
            )
        } else if self.stage == DownloadStage::ListBefore {
            DownloadModel { stage: DownloadStage::Launch, before: walk.files, ..moved }
        } else {
            DownloadModel {
                stage: DownloadStage::Done,
                result: Some(
                    Ok(
                        OutcomeModel {
                            client: (self.client->0).0,
                            output: self.output,
                            new_files: downloader::new_file_views(self.before, walk.files),
                        },
                    ),
                ),
                ..moved
            }
        }
    }

    /// The client ended.
    pub open spec fn ended(self, end: ClientEnd) -> DownloadModel {
        match downloader::client_outcome((self.client->0).0, end) {
            Ok(_) => DownloadModel { stage: DownloadStage::ListAfter, ..self },
            Err(fault) => self.failed(fault),
        }
    }

    /// What an event changes. One that the download does not wait for changes
    /// nothing.
    pub open spec fn step(self, event: DownloadEvent) -> DownloadModel {
        match (self.stage, event) {
            (
                DownloadStage::Inspect,
                DownloadEvent::Inspected { exists, is_directory },
            ) => self.inspected(exists, is_directory),
            (DownloadStage::Create, DownloadEvent::Created(result)) => self.created(result),
            (DownloadStage::Resolve, DownloadEvent::Resolved(result)) => self.resolved(result),
            (DownloadStage::Probe, DownloadEvent::Probed(probe)) => self.probed(probe),
            (DownloadStage::ListBefore, DownloadEvent::Listed(listing)) => self.listed(listing@),
            (DownloadStage::Launch, DownloadEvent::Ended(end)) => self.ended(end),
            (DownloadStage::ListAfter, DownloadEvent::Listed(listing)) => self.listed(listing@),
            _ => self,
        }
    }

    /// What holds of every state: from the selection on there is a client that
    /// can be used, a walk has a directory to list, and a result is there exactly
    /// when the download is over.
    pub open spec fn is_sound(self) -> bool {
        &&& (self.stage == DownloadStage::ListBefore || self.stage == DownloadStage::Launch
            || self.stage == DownloadStage::ListAfter) ==> match self.client {
            Some(client) => downloader::unsupported_reason(client.0) is None
                && !downloader::is_topmost(self.output),
            None => false,
        }
        &&& self.stage == DownloadStage::Probe ==> !downloader::is_topmost(self.output)
        &&& self.result is Some <==> self.stage == DownloadStage::Done
        &&& self.walk.pending is Some
    }
}

/// The state in which a download starts.
pub open spec fn started(
    wanted: DownloaderPreference,
    directories: Seq<Seq<u8>>,
    magnet: model::MagnetModel,
    requested: Seq<u8>,
) -> DownloadModel {
    DownloadModel {
        wanted,
        directories,
        magnet,
        requested,
        stage: DownloadStage::Inspect,
        output: Seq::empty(),
        client: None,
        walk: downloader::walk_start(),
        before: Seq::empty(),
        result: None,
    }
}

/// What is to be done outside.
pub enum DownloadAction {
    /// See what is at the path.
    Inspect(FilePath),
    /// Create the directory with its parents.
    Create(FilePath),
    /// Resolve the directory.
    Resolve(FilePath),
    /// See which of the client's candidates are executable files.
    Probe,
    /// List the directory at a path below the output directory.
    List { output: FilePath, relative: FilePath },
    /// Run the client in the foreground, with these arguments and no shell.
    Launch { executable: FilePath, arguments: Vec<FilePath> },
    /// Nothing: the download is over.
    Finished,
}

/// An action by its values.
pub enum DownloadActionModel {
    Inspect(Seq<u8>),
    Create(Seq<u8>),
    Resolve(Seq<u8>),
    Probe,
    List(Seq<u8>, Seq<u8>),
    Launch(Seq<u8>, Seq<Seq<u8>>),
    Finished,
}

impl View for DownloadAction {
    type V = DownloadActionModel;

    open spec fn view(&self) -> DownloadActionModel {
        match self {
            DownloadAction::Inspect(path) => DownloadActionModel::Inspect(path@),
            DownloadAction::Create(path) => DownloadActionModel::Create(path@),
            DownloadAction::Resolve(path) => DownloadActionModel::Resolve(path@),
            DownloadAction::Probe => DownloadActionModel::Probe,
            DownloadAction::List { output, relative } => DownloadActionModel::List(
                output@,
                relative@,
            ),
            DownloadAction::Launch { executable, arguments } => DownloadActionModel::Launch(
                executable@,
                paths::path_views(arguments@),
            ),
            DownloadAction::Finished => DownloadActionModel::Finished,
        }
    }
}

/// What a state asks for.
pub open spec fn action_of(m: DownloadModel) -> DownloadActionModel {
    match m.stage {
        DownloadStage::Inspect => DownloadActionModel::Inspect(m.requested),
        DownloadStage::Create => DownloadActionModel::Create(m.requested),
        DownloadStage::Resolve => DownloadActionModel::Resolve(m.requested),
        DownloadStage::Probe => DownloadActionModel::Probe,
        DownloadStage::ListBefore | DownloadStage::ListAfter => match m.walk.pending {
            Some(wanted) => DownloadActionModel::List(m.output, wanted.0),
            None => DownloadActionModel::Finished,
        },
        DownloadStage::Launch => match (
            m.client,
            downloader::client_arguments((m.client->0).0, m.magnet.href, m.output),
        ) {
            (Some(client), Ok(arguments)) => DownloadActionModel::Launch(client.1, arguments),
            _ => DownloadActionModel::Finished,
        },
        DownloadStage::Done => DownloadActionModel::Finished,
    }
}

/// A download.
pub struct DownloadRun {
    downloader: LocalDownloader,
    magnet: MagnetUri,
    requested: FilePath,
    stage: DownloadStage,
    output: FilePath,
    client: Option<SelectedClient>,
    walk: Walk,
    before: Vec<DownloadedFile>,
    result: Option<Result<DownloadOutcome, DownloadError>>,
}

impl View for DownloadRun {
    type V = DownloadModel;

    closed spec fn view(&self) -> DownloadModel {
        DownloadModel {
            wanted: self.downloader.wanted(),
            directories: self.downloader.directories(),
            magnet: self.magnet@,
            requested: self.requested@,
            stage: self.stage,
            output: self.output@,
            client: match self.client {
                Some(client) => Some((client.kind, client.executable@)),
                None => None,
            },
            walk: self.walk@,
            before: downloader::file_views(self.before@),
            result: match self.result {
                None => None,
                Some(Ok(outcome)) => Some(
                    Ok(
                        OutcomeModel {
                            client: outcome.client,
                            output: outcome.output_directory@,
                            new_files: downloader::file_views(outcome.new_files@),
                        },
                    ),
                ),
                Some(Err(error)) => Some(Err(error@)),
            },
        }
    }
}

impl DownloadRun {
    /// Whether the run is in a state that a download can be in.
    pub closed spec fn is_sound(&self) -> bool {
        self@.is_sound() && self.walk.is_sound()
    }

}

impl LocalDownloader {
    /// Starts a download of a magnet link into a directory. It can be
    /// interrupted while the client runs.
    pub fn download_with_cancel(
        self,
        magnet: MagnetUri,
        output_directory: FilePath,
    ) -> (r: DownloadRun)
        ensures
            r@ == started(
                self.wanted(),
                self.directories(),
                magnet@,
                output_directory@,
            ),
            r.is_sound(),
    {
        let run = DownloadRun {
            downloader: self,
            magnet,
            requested: output_directory,
            stage: DownloadStage::Inspect,
            output: FilePath::from_bytes(Vec::new()),
            client: None,
            walk: Walk::new(),
            before: Vec::new(),
            result: None,
        };
        proof {
            assert(downloader::file_views(run.before@) =~= Seq::empty());
            assert(run@ =~= started(
                self.wanted(),
                self.directories(),
                magnet@,
                output_directory@,
            ));
        }
        run
    }
}

impl DownloadRun {
    /// The downloader that is used.
    pub fn downloader(&self) -> (r: &LocalDownloader)
        ensures
            r.wanted() == self@.wanted,
            r.directories() == self@.directories,
    {
        &self.downloader
    }

    /// What the download asks for.
    pub fn action(&self) -> (r: DownloadAction)
        requires
            self.is_sound(),
        ensures
            r@ == action_of(self@),
    {
        match self.stage {
            DownloadStage::Inspect => DownloadAction::Inspect(self.requested.clone()),
            DownloadStage::Create => DownloadAction::Create(self.requested.clone()),
            DownloadStage::Resolve => DownloadAction::Resolve(self.requested.clone()),
            DownloadStage::Probe => DownloadAction::Probe,
            DownloadStage::ListBefore | DownloadStage::ListAfter => match self.walk.request() {
                Some(relative) => DownloadAction::List {
                    output: self.output.clone(),
                    relative: relative.clone(),
                },
                None => DownloadAction::Finished,
            },
            DownloadStage::Launch => match &self.client {
                Some(client) => match build_arguments(client.kind, &self.magnet, &self.output) {
                    Ok(arguments) => DownloadAction::Launch {
                        executable: client.executable.clone(),
                        arguments,
                    },
                    Err(_) => DownloadAction::Finished,
                },
                None => DownloadAction::Finished,
            },
            DownloadStage::Done => DownloadAction::Finished,
        }
    }

    fn fail(&mut self, error: DownloadError)
        ensures
            final(self)@ == old(self)@.failed(error@),
            final(self).walk == old(self).walk,
    {
        self.result = Some(Err(error));
        self.stage = DownloadStage::Done;
        proof {
            assert(self@ =~= old(self)@.failed(error@));
        }
    }

    fn on_inspected(&mut self, exists: bool, is_directory: bool)
        ensures
            final(self)@ == old(self)@.inspected(exists, is_directory),
            final(self).walk == old(self).walk,
    {
        match check_output(&self.requested, exists, is_directory) {
            Ok(OutputStep::Resolve) => {
                self.stage = DownloadStage::Resolve;
            },
            Ok(OutputStep::Create) => {
                self.stage = DownloadStage::Create;
            },
            Err(error) => self.fail(error),
        }
        proof {
            assert(self@ =~= old(self)@.inspected(exists, is_directory));
        }
    }

    fn on_created(&mut self, result: Result<(), String>)
        ensures
            final(self)@ == old(self)@.created(result),
            final(self).walk == old(self).walk,
    {
        match result {
            Ok(_) => {
                self.stage = DownloadStage::Resolve;
            },
            Err(message) => {
                let error = output_error(&self.requested, message);
                self.fail(error);
            },
        }
        proof {
            assert(self@ =~= old(self)@.created(result));
        }
    }

    fn on_resolved(&mut self, result: Result<FilePath, String>)
        ensures
            final(self)@ == old(self)@.resolved(result),
            final(self).walk == old(self).walk,
    {
        match result {
            Ok(path) => match accept_output(path) {
                Ok(output) => {
                    self.output = output;
                    self.stage = DownloadStage::Probe;
                },
                Err(error) => self.fail(error),
            },
            Err(message) => {
                let error = output_error(&self.requested, message);
                self.fail(error);
            },
        }
        proof {
            assert(self@ =~= old(self)@.resolved(result));
        }
    }

    fn on_probed(&mut self, probe: ClientProbe)
        ensures
            final(self)@ == old(self)@.probed(probe),
            final(self).walk == old(self).walk,
    {
        match self.downloader.select_client(&probe) {
            Ok(client) => {
                self.client = Some(client);
                self.stage = DownloadStage::ListBefore;
            },
            Err(error) => self.fail(error),
        }
        proof {
            assert(self@ =~= old(self)@.probed(probe));
        }
    }

    fn on_listed(&mut self, listing: Listing)
        requires
            old(self).is_sound(),
            old(self)@.stage == DownloadStage::ListBefore || old(self)@.stage
                == DownloadStage::ListAfter,
        ensures
            final(self)@ == old(self)@.listed(listing@),
            final(self).walk.is_sound(),
    {
        let ghost start = self@;
        self.walk.supply(listing);
        if self.walk.request().is_some() {
            proof {
                assert(self@ =~= start.listed(listing@));
            }
            return;
        }
        let mut walk = Walk::new();
        std::mem::swap(&mut walk, &mut self.walk);
        match walk.finish() {
            Err(error) => {
                self.fail(error);
            },
            Ok(files) => {
                if self.stage == DownloadStage::ListBefore {
                    self.before = files;
                    self.stage = DownloadStage::Launch;
                } else if let Some(client) = &self.client {
                    let found = new_files(&self.before, &files);
                    self.result = Some(
                        Ok(
                            DownloadOutcome {
                                client: client.kind,
                                output_directory: self.output.clone(),
                                new_files: found,
                            },
                        ),
                    );
                    self.stage = DownloadStage::Done;
                }
            },
        }
        proof {
            assert(self@ =~= start.listed(listing@));
        }
    }

    fn on_ended(&mut self, end: ClientEnd)
        requires
            old(self).is_sound(),
            old(self)@.stage == DownloadStage::Launch,
        ensures
            final(self)@ == old(self)@.ended(end),
            final(self).walk == old(self).walk,
    {
        let kind = match &self.client {
            Some(client) => client.kind,
            None => {
                return;
            },
        };
        match judge_client(kind, end) {
            Ok(_) => {
                self.stage = DownloadStage::ListAfter;
            },
            Err(error) => self.fail(error),
        }
        proof {
            assert(self@ =~= old(self)@.ended(end));
        }
    }

    /// Takes in what happened.
    pub fn handle(&mut self, event: DownloadEvent)
        requires
            old(self).is_sound(),
        ensures
            final(self)@ == old(self)@.step(event),
            final(self).is_sound(),
    {
        proof {
            steps_stay_sound(self@, event);
        }
        match event {
            DownloadEvent::Inspected { exists, is_directory } => if self.stage
                == DownloadStage::Inspect {
                self.on_inspected(exists, is_directory);
            },
            DownloadEvent::Created(result) => if self.stage == DownloadStage::Create {
                self.on_created(result);
            },
            DownloadEvent::Resolved(result) => if self.stage == DownloadStage::Resolve {
                self.on_resolved(result);
            },
            DownloadEvent::Probed(probe) => if self.stage == DownloadStage::Probe {
                self.on_probed(probe);
            },
            DownloadEvent::Listed(listing) => if self.stage == DownloadStage::ListBefore
                || self.stage == DownloadStage::ListAfter {
                self.on_listed(listing);
            },
            DownloadEvent::Ended(end) => if self.stage == DownloadStage::Launch {
                self.on_ended(end);
            },
        }
    }

    /// What the download came to, once it is over.
    pub fn finish(self) -> (r: Option<Result<DownloadOutcome, DownloadError>>)
        ensures
            match (r, self@.result) {
                (Some(Ok(outcome)), Some(Ok(expected))) => outcome.client == expected.client
                    && outcome.output_directory@ == expected.output && downloader::file_views(
                    outcome.new_files@,
                ) == expected.new_files,
                (Some(Err(error)), Some(Err(fault))) => error@ == fault,
                (None, None) => true,
                _ => false,
            },
    {
        self.result
    }
}

// ----------------------------------------------------------------------- laws

/// Every event keeps a download sound.
pub proof fn steps_stay_sound(m: DownloadModel, event: DownloadEvent)
    requires
        m.is_sound(),
    ensures
        m.step(event).is_sound(),
{
    if let DownloadEvent::Probed(probe) = event {
        downloader::chosen_clients_keep_the_contract(m.wanted, m.directories, probe);
    }
}

/// A client is started only for an output directory that is not the root of the
/// file system, only if it stops seeding on completion, and with the magnet link
/// as its last argument.
pub proof fn launches_keep_the_contract(m: DownloadModel)
    requires
        m.is_sound(),
    ensures
        action_of(m) matches DownloadActionModel::Launch(executable, arguments) ==> {
            &&& m.client matches Some(client)
            &&& downloader::unsupported_reason(client.0) is None
            &&& client.1 == executable
            &&& !downloader::is_topmost(m.output)
            &&& arguments.len() == 4
            &&& arguments[0] == vstd::utf8::encode_utf8("--seed-time=0"@)
            &&& arguments[2] == m.output
            &&& arguments.last() == vstd::utf8::encode_utf8(m.magnet.href)
        },
{
}

/// A download asks for something until it has a result.
pub proof fn actions_lead_on(m: DownloadModel)
    requires
        m.is_sound(),
    ensures
        action_of(m) is Finished <==> m.result is Some,
{
}

/// How far a stage is from the end.
pub open spec fn stages_left(stage: DownloadStage) -> nat {
    match stage {
        DownloadStage::Inspect => 7,
        DownloadStage::Create => 6,
        DownloadStage::Resolve => 5,
        DownloadStage::Probe => 4,
        DownloadStage::ListBefore => 3,
        DownloadStage::Launch => 2,
        DownloadStage::ListAfter => 1,
        DownloadStage::Done => 0,
    }
}

/// The stages are passed in order and none twice, so a client is started at most
/// once; files are reported only after it succeeded.
pub proof fn stages_are_passed_in_order(m: DownloadModel, event: DownloadEvent)
    requires
        m.is_sound(),
    ensures
        stages_left(m.step(event).stage) <= stages_left(m.stage),
        m.stage == DownloadStage::Launch && event is Ended ==> stages_left(m.step(event).stage)
            < stages_left(m.stage),
        m.step(event).stage == DownloadStage::ListAfter && m.stage != DownloadStage::ListAfter ==> (
        event matches DownloadEvent::Ended(end) && downloader::client_outcome(
            (m.client->0).0,
            end,
        ) is Ok),
{
}

} // verus!
