//! Handing a magnet link to a local torrent client: which client, with which
//! arguments, into which directory, and what it left there.

use crate::browser;
use crate::browser::{first_executable, push_in_each};
use crate::config::DownloaderPreference;
use crate::model::MagnetUri;
use crate::order::Order;
use crate::paths;
use crate::paths::FilePath;
use crate::ranking;
use vstd::prelude::*;

pub use crate::download_run::DownloadRun;

verus! {

/// The most files that are told apart in the output directory.
pub const MAX_SNAPSHOT_ENTRIES: usize = 10_000;

/// The deepest directory that is looked into below the output directory.
pub const MAX_SNAPSHOT_DEPTH: usize = 32;

// -------------------------------------------------------------------- clients

/// A torrent client.
#[derive(Debug, Clone, Copy, PartialEq, Eq, Hash, Structural)]
pub enum ClientKind {
    Aria2c,
    TransmissionCli,
    QbittorrentNox,
}

/// The name of a client's executable.
pub open spec fn client_name(kind: ClientKind) -> Seq<char> {
    match kind {
        ClientKind::Aria2c => "aria2c"@,
        ClientKind::TransmissionCli => "transmission-cli"@,
        ClientKind::QbittorrentNox => "qbittorrent-nox"@,
    }
}

/// Why a client cannot be used; nothing for one that can. A client must stay in
/// the foreground until the download is complete and stop seeding then.
pub open spec fn unsupported_reason(kind: ClientKind) -> Option<Seq<char>> {
    match kind {
        ClientKind::Aria2c => None,
        ClientKind::TransmissionCli => Some(
            "transmission-cli has no supported stop-seeding-on-completion option"@,
        ),
        ClientKind::QbittorrentNox => Some(
            "qbittorrent-nox is a long-running service and has no foreground per-download completion mode"@,
        ),
    }
}

impl ClientKind {
    /// The name of the executable.
    pub fn executable_name(self) -> (r: &'static str)
        ensures
            r@ == client_name(self),
    {
        match self {
            ClientKind::Aria2c => "aria2c",
            ClientKind::TransmissionCli => "transmission-cli",
            ClientKind::QbittorrentNox => "qbittorrent-nox",
        }
    }

    /// Why the client cannot be used, if it cannot.
    pub fn contract_status(self) -> (r: Option<&'static str>)
        ensures
            match (r, unsupported_reason(self)) {
                (Some(reason), Some(expected)) => reason@ == expected,
                (None, None) => true,
                _ => false,
            },
    {
        match self {
            ClientKind::Aria2c => None,
            ClientKind::TransmissionCli => Some(
                "transmission-cli has no supported stop-seeding-on-completion option",
            ),
            ClientKind::QbittorrentNox => Some(
                "qbittorrent-nox is a long-running service and has no foreground per-download completion mode",
            ),
        }
    }
}

/// A client that was chosen, and where it is.
#[derive(Debug, PartialEq, Eq)]
pub struct SelectedClient {
    pub kind: ClientKind,
    pub executable: FilePath,
}

/// A file in the output directory.
#[derive(Debug, PartialEq, Eq)]
pub struct DownloadedFile {
    pub relative_path: FilePath,
    pub size_bytes: u64,
}

impl View for DownloadedFile {
    type V = (Seq<u8>, u64);

    open spec fn view(&self) -> (Seq<u8>, u64) {
        (self.relative_path@, self.size_bytes)
    }
}

/// Files by their paths and sizes.
pub open spec fn file_views(files: Seq<DownloadedFile>) -> Seq<(Seq<u8>, u64)> {
    Seq::new(files.len(), |i: int| files[i]@)
}

impl Clone for DownloadedFile {
    fn clone(&self) -> (r: DownloadedFile)
        ensures
            r@ == self@,
    {
        DownloadedFile {
            relative_path: self.relative_path.clone(),
            size_bytes: self.size_bytes,
        }
    }
}

/// A completed download.
#[derive(Debug, PartialEq, Eq)]
pub struct DownloadOutcome {
    pub client: ClientKind,
    pub output_directory: FilePath,
    pub new_files: Vec<DownloadedFile>,
}

// --------------------------------------------------------------------- errors

/// Why a download failed.
#[derive(Debug, PartialEq, Eq)]
pub enum DownloadError {
    MissingClient,
    ConfiguredClientMissing(ClientKind),
    UnsupportedClient { client: ClientKind, reason: &'static str },
    InvalidOutput(FilePath),
    UnsafeOutput(FilePath),
    OutputPreparation { path: FilePath, message: String },
    Spawn { client: ClientKind, message: String },
    NonzeroExit { client: ClientKind, status: String },
    Interrupted,
    OutputInspection(&'static str),
}

/// A download error by its values.
#[verifier::ext_equal]
pub enum DownloadFault {
    MissingClient,
    ConfiguredClientMissing(ClientKind),
    UnsupportedClient(ClientKind, Seq<char>),
    InvalidOutput(Seq<u8>),
    UnsafeOutput(Seq<u8>),
    OutputPreparation(Seq<u8>, Seq<char>),
    Spawn(ClientKind, Seq<char>),
    NonzeroExit(ClientKind, Seq<char>),
    Interrupted,
    OutputInspection(Seq<char>),
}

impl View for DownloadError {
    type V = DownloadFault;

    open spec fn view(&self) -> DownloadFault {
        match self {
            DownloadError::MissingClient => DownloadFault::MissingClient,
            DownloadError::ConfiguredClientMissing(client) =>
                DownloadFault::ConfiguredClientMissing(*client),
            DownloadError::UnsupportedClient { client, reason } => DownloadFault::UnsupportedClient(
                *client,
                reason@,
            ),
            DownloadError::InvalidOutput(path) => DownloadFault::InvalidOutput(path@),
            DownloadError::UnsafeOutput(path) => DownloadFault::UnsafeOutput(path@),
            DownloadError::OutputPreparation { path, message } => DownloadFault::OutputPreparation(
                path@,
                message@,
            ),
            DownloadError::Spawn { client, message } => DownloadFault::Spawn(*client, message@),
            DownloadError::NonzeroExit { client, status } => DownloadFault::NonzeroExit(
                *client,
                status@,
            ),
            DownloadError::Interrupted => DownloadFault::Interrupted,
            DownloadError::OutputInspection(reason) => DownloadFault::OutputInspection(reason@),
        }
    }
}

/// What each error says.
pub open spec fn download_fault_text(fault: DownloadFault) -> Seq<char> {
    match fault {
        DownloadFault::MissingClient =>
            "no supported foreground torrent client was found; install aria2c"@,
        DownloadFault::ConfiguredClientMissing(client) =>
            "configured torrent client was not found on PATH: "@ + client_name(client),
        DownloadFault::UnsupportedClient(client, reason) => "torrent client "@ + client_name(client)
            + " cannot meet pbtdl's foreground/no-seeding contract: "@ + reason,
        DownloadFault::InvalidOutput(path) => "output path is not a usable directory: "@
            + paths::lossy_text(path),
        DownloadFault::UnsafeOutput(path) =>
            "output directory is too broad for safe file attribution: "@ + paths::lossy_text(path),
        DownloadFault::OutputPreparation(path, message) => "cannot prepare output directory "@
            + paths::lossy_text(path) + ": "@ + message,
        DownloadFault::Spawn(client, message) => "failed to start "@ + client_name(client) + ": "@
            + message,
        DownloadFault::NonzeroExit(client, status) => client_name(client)
            + " exited unsuccessfully: "@ + status,
        DownloadFault::Interrupted => "download was interrupted"@,
        DownloadFault::OutputInspection(reason) => "cannot safely inspect output directory: "@
            + reason,
    }
}

impl DownloadError {
    /// The error in words.
    pub fn message(&self) -> (r: String)
        ensures
            r@ == download_fault_text(self@),
    {
        match self {
            DownloadError::MissingClient => {
                "no supported foreground torrent client was found; install aria2c".to_string()
            },
            DownloadError::ConfiguredClientMissing(client) => {
                let mut out = "configured torrent client was not found on PATH: ".to_string();
                out.append(client.executable_name());
                out
            },
            DownloadError::UnsupportedClient { client, reason } => {
                let mut out = "torrent client ".to_string();
                out.append(client.executable_name());
                out.append(" cannot meet pbtdl's foreground/no-seeding contract: ");
                out.append(reason);
                out
            },
            DownloadError::InvalidOutput(path) => {
                let mut out = "output path is not a usable directory: ".to_string();
                let shown = path.display();
                out.append(shown.as_str());
                out
            },
            DownloadError::UnsafeOutput(path) => {
                let mut out = "output directory is too broad for safe file attribution: ".to_string();
                let shown = path.display();
                out.append(shown.as_str());
                out
            },
            DownloadError::OutputPreparation { path, message } => {
                let mut out = "cannot prepare output directory ".to_string();
                let shown = path.display();
                out.append(shown.as_str());
                out.append(": ");
                out.append(message.as_str());
                out
            },
            DownloadError::Spawn { client, message } => {
                let mut out = "failed to start ".to_string();
                out.append(client.executable_name());
                out.append(": ");
                out.append(message.as_str());
                out
            },
            DownloadError::NonzeroExit { client, status } => {
                let mut out = client.executable_name().to_string();
                out.append(" exited unsuccessfully: ");
                out.append(status.as_str());
                out
            },
            DownloadError::Interrupted => "download was interrupted".to_string(),
            DownloadError::OutputInspection(reason) => {
                let mut out = "cannot safely inspect output directory: ".to_string();
                out.append(reason);
                out
            },
        }
    }
}

/// What holds of a result: success, or a given error.
pub open spec fn outcome_is(r: Result<(), DownloadError>, expected: Result<(), DownloadFault>) -> bool {
    match (r, expected) {
        (Ok(_), Ok(_)) => true,
        (Err(error), Err(fault)) => error@ == fault,
        _ => false,
    }
}

// ------------------------------------------------------------------ selection

/// Whether a client can be used at all.
pub open spec fn support_outcome(kind: ClientKind) -> Result<(), DownloadFault> {
    match unsupported_reason(kind) {
        Some(reason) => Err(DownloadFault::UnsupportedClient(kind, reason)),
        None => Ok(()),
    }
}

/// Refuses a client that cannot be used.
pub fn ensure_supported(kind: ClientKind) -> (r: Result<(), DownloadError>)
    ensures
        outcome_is(r, support_outcome(kind)),
{
    match kind.contract_status() {
        Some(reason) => Err(DownloadError::UnsupportedClient { client: kind, reason }),
        None => Ok(()),
    }
}

/// The files on the search path that may be a client.
pub open spec fn client_files(kind: ClientKind, directories: Seq<Seq<u8>>) -> Seq<Seq<u8>> {
    browser::in_each(directories, vstd::utf8::encode_utf8(client_name(kind)))
}

/// What is known of the search path: for each client, which of its files are
/// executable.
#[derive(Debug, PartialEq, Eq)]
pub struct ClientProbe {
    pub aria2c: Vec<bool>,
    pub transmission_cli: Vec<bool>,
    pub qbittorrent_nox: Vec<bool>,
}

impl ClientProbe {
    /// What is known of a client.
    pub open spec fn marks(self, kind: ClientKind) -> Seq<bool> {
        match kind {
            ClientKind::Aria2c => self.aria2c@,
            ClientKind::TransmissionCli => self.transmission_cli@,
            ClientKind::QbittorrentNox => self.qbittorrent_nox@,
        }
    }
}

/// Where a client is, if it is on the search path.
pub open spec fn client_at(kind: ClientKind, directories: Seq<Seq<u8>>, probe: ClientProbe) -> Option<
    Seq<u8>,
> {
    browser::first_marked(client_files(kind, directories), probe.marks(kind))
}

/// The client that is asked for by name.
pub open spec fn explicit_client(preference: DownloaderPreference) -> Option<ClientKind> {
    match preference {
        DownloaderPreference::Auto => None,
        DownloaderPreference::Aria2c => Some(ClientKind::Aria2c),
        DownloaderPreference::TransmissionCli => Some(ClientKind::TransmissionCli),
        DownloaderPreference::QbittorrentNox => Some(ClientKind::QbittorrentNox),
    }
}

/// The client to use. One that is asked for must be there and usable; otherwise
/// it is the first that is both.
pub open spec fn chosen_client(
    preference: DownloaderPreference,
    directories: Seq<Seq<u8>>,
    probe: ClientProbe,
) -> Result<(ClientKind, Seq<u8>), DownloadFault> {
    match explicit_client(preference) {
        Some(kind) => match client_at(kind, directories, probe) {
            None => Err(DownloadFault::ConfiguredClientMissing(kind)),
            Some(path) => match unsupported_reason(kind) {
                Some(reason) => Err(DownloadFault::UnsupportedClient(kind, reason)),
                None => Ok((kind, path)),
            },
        },
        None => first_usable(
            seq![ClientKind::Aria2c, ClientKind::TransmissionCli, ClientKind::QbittorrentNox],
            directories,
            probe,
        ),
    }
}

/// The first of the clients that is there and usable.
pub open spec fn first_usable(
    kinds: Seq<ClientKind>,
    directories: Seq<Seq<u8>>,
    probe: ClientProbe,
) -> Result<(ClientKind, Seq<u8>), DownloadFault>
    decreases kinds.len(),
{
    if kinds.len() == 0 {
        Err(DownloadFault::MissingClient)
    } else {
        match client_at(kinds[0], directories, probe) {
            Some(path) => if unsupported_reason(kinds[0]) is None {
                Ok((kinds[0], path))
            } else {
                first_usable(kinds.drop_first(), directories, probe)
            },
            None => first_usable(kinds.drop_first(), directories, probe),
        }
    }
}

/// Downloads with a client of this machine.
#[derive(Debug, PartialEq, Eq)]
pub struct LocalDownloader {
    preference: DownloaderPreference,
    path_entries: Vec<FilePath>,
}

impl LocalDownloader {
    /// Which client is wanted.
    pub closed spec fn wanted(&self) -> DownloaderPreference {
        self.preference
    }

    /// The search path.
    pub closed spec fn directories(&self) -> Seq<Seq<u8>> {
        paths::path_views(self.path_entries@)
    }

    /// A downloader that looks for clients in these directories.
    pub fn with_path_entries(preference: DownloaderPreference, path_entries: Vec<FilePath>) -> (r:
        LocalDownloader)
        ensures
            r.wanted() == preference,
            r.directories() == paths::path_views(path_entries@),
    {
        LocalDownloader { preference, path_entries }
    }

    /// The files that may be a client, in the order of the search path.
    pub fn candidates(&self, kind: ClientKind) -> (r: Vec<FilePath>)
        ensures
            paths::path_views(r@) == client_files(kind, self.directories()),
    {
        let mut out: Vec<FilePath> = Vec::new();
        proof {
            assert(paths::path_views(out@) =~= Seq::empty());
        }
        push_in_each(&mut out, &self.path_entries, &FilePath::new(kind.executable_name()));
        proof {
            assert(paths::path_views(out@) =~= client_files(kind, self.directories()));
        }
        out
    }

    fn locate(&self, kind: ClientKind, probe: &ClientProbe) -> (r: Option<FilePath>)
        ensures
            paths::opt_path(r) == client_at(kind, self.directories(), *probe),
    {
        let files = self.candidates(kind);
        match kind {
            ClientKind::Aria2c => first_executable(&files, &probe.aria2c),
            ClientKind::TransmissionCli => first_executable(&files, &probe.transmission_cli),
            ClientKind::QbittorrentNox => first_executable(&files, &probe.qbittorrent_nox),
        }
    }

    /// The client to use, given which of the candidates are executable files.
    pub fn select_client(&self, probe: &ClientProbe) -> (r: Result<SelectedClient, DownloadError>)
        ensures
            match (r, chosen_client(self.wanted(), self.directories(), *probe)) {
                (Ok(client), Ok(expected)) => client.kind == expected.0 && client.executable@
                    == expected.1,
                (Err(error), Err(fault)) => error@ == fault,
                _ => false,
            },
    {
        let explicit = match self.preference {
            DownloaderPreference::Auto => None,
            DownloaderPreference::Aria2c => Some(ClientKind::Aria2c),
            DownloaderPreference::TransmissionCli => Some(ClientKind::TransmissionCli),
            DownloaderPreference::QbittorrentNox => Some(ClientKind::QbittorrentNox),
        };
        if let Some(kind) = explicit {
            return match self.locate(kind, probe) {
                None => Err(DownloadError::ConfiguredClientMissing(kind)),
                Some(executable) => match kind.contract_status() {
                    Some(reason) => Err(DownloadError::UnsupportedClient { client: kind, reason }),
                    None => Ok(SelectedClient { kind, executable }),
                },
            };
        }
        let priority = [ClientKind::Aria2c, ClientKind::TransmissionCli, ClientKind::QbittorrentNox];
        let ghost all = seq![
            ClientKind::Aria2c,
            ClientKind::TransmissionCli,
            ClientKind::QbittorrentNox,
        ];
        let mut i: usize = 0;
        proof {
            assert(priority@ =~= all);
            assert(all.skip(0) =~= all);
        }
        while i < 3
            invariant
                i <= 3,
                priority@ == all,
                all.len() == 3,
                chosen_client(self.wanted(), self.directories(), *probe) == first_usable(
                    all,
                    self.directories(),
                    *probe,
                ),
                first_usable(all.skip(i as int), self.directories(), *probe) == first_usable(
                    all,
                    self.directories(),
                    *probe,
                ),
            decreases 3 - i,
        {
            proof {
                assert(all.skip(i as int)[0] == all[i as int]);
                assert(all.skip(i as int).drop_first() =~= all.skip(i as int + 1));
            }
            let kind = priority[i];
            if let Some(executable) = self.locate(kind, probe) {
                if kind.contract_status().is_none() {
                    return Ok(SelectedClient { kind, executable });
                }
            }
            i = i + 1;
        }
        proof {
            assert(all.skip(3) =~= Seq::empty());
        }
        Err(DownloadError::MissingClient)
    }
}

/// Whatever client is chosen is one that stays in the foreground and does not
/// seed after completion, is on the search path, and is the one that was asked
/// for, if one was.
pub proof fn chosen_clients_keep_the_contract(
    preference: DownloaderPreference,
    directories: Seq<Seq<u8>>,
    probe: ClientProbe,
)
    ensures
        chosen_client(preference, directories, probe) matches Ok(found) ==> {
            &&& unsupported_reason(found.0) is None
            &&& client_at(found.0, directories, probe) == Some(found.1)
            &&& explicit_client(preference) matches Some(kind) ==> found.0 == kind
        },
{
    reveal_with_fuel(first_usable, 4);
}

// ------------------------------------------------------------------ invocation

/// The arguments of a client: each one goes to the process as it stands, with no
/// shell in between.
pub open spec fn client_arguments(kind: ClientKind, magnet: Seq<char>, output: Seq<u8>) -> Result<
    Seq<Seq<u8>>,
    DownloadFault,
> {
    match unsupported_reason(kind) {
        Some(reason) => Err(DownloadFault::UnsupportedClient(kind, reason)),
        None => Ok(
            seq![
                vstd::utf8::encode_utf8("--seed-time=0"@),
                vstd::utf8::encode_utf8("--dir"@),
                output,
                vstd::utf8::encode_utf8(magnet),
            ],
        ),
    }
}

/// The arguments with which a client downloads a magnet link into a directory.
pub fn build_arguments(kind: ClientKind, magnet: &MagnetUri, output_directory: &FilePath) -> (r:
    Result<Vec<FilePath>, DownloadError>)
    ensures
        match (r, client_arguments(kind, magnet@.href, output_directory@)) {
            (Ok(arguments), Ok(expected)) => paths::path_views(arguments@) == expected,
            (Err(error), Err(fault)) => error@ == fault,
            _ => false,
        },
{
    if let Some(reason) = kind.contract_status() {
        return Err(DownloadError::UnsupportedClient { client: kind, reason });
    }
    let arguments = vec![
        FilePath::new("--seed-time=0"),
        FilePath::new("--dir"),
        output_directory.clone(),
        FilePath::new(magnet.as_str()),
    ];
    proof {
        assert(paths::path_views(arguments@) =~= seq![
            vstd::utf8::encode_utf8("--seed-time=0"@),
            vstd::utf8::encode_utf8("--dir"@),
            output_directory@,
            vstd::utf8::encode_utf8(magnet@.href),
        ]);
    }
    Ok(arguments)
}

/// The magnet link is one argument, the last, whatever characters it holds, and
/// seeding is switched off.
pub proof fn magnets_are_one_argument(kind: ClientKind, magnet: Seq<char>, output: Seq<u8>)
    ensures
        client_arguments(kind, magnet, output) matches Ok(arguments) ==> {
            &&& arguments.len() == 4
            &&& arguments[0] == vstd::utf8::encode_utf8("--seed-time=0"@)
            &&& arguments[2] == output
            &&& arguments.last() == vstd::utf8::encode_utf8(magnet)
        },
{
}

// ------------------------------------------------------------ output directory

/// What is to be done about the output directory.
#[derive(Debug, Clone, Copy, PartialEq, Eq, Structural)]
pub enum OutputStep {
    /// Create it with its parents.
    Create,
    /// Resolve it.
    Resolve,
}

/// What is to be done about an output path, given what is there: a directory is
/// used, nothing is created, and anything else is refused.
pub fn check_output(path: &FilePath, exists: bool, is_directory: bool) -> (r: Result<
    OutputStep,
    DownloadError,
>)
    ensures
        match r {
            Ok(OutputStep::Resolve) => exists && is_directory,
            Ok(OutputStep::Create) => !exists,
            Err(error) => exists && !is_directory && error@ == DownloadFault::InvalidOutput(path@),
        },
{
    if exists && !is_directory {
        return Err(DownloadError::InvalidOutput(path.clone()));
    }
    if exists {
        Ok(OutputStep::Resolve)
    } else {
        Ok(OutputStep::Create)
    }
}

/// The error of an output directory that could not be created or resolved.
pub fn output_error(path: &FilePath, message: String) -> (r: DownloadError)
    ensures
        r@ == DownloadFault::OutputPreparation(path@, message@),
{
    DownloadError::OutputPreparation { path: path.clone(), message }
}

/// Whether a path has nothing above it: the root, or nothing at all.
pub open spec fn is_topmost(path: Seq<u8>) -> bool {
    paths::component_count(path) == 0 || (paths::is_absolute(path) && paths::component_count(path)
        == 1)
}

/// Accepts a resolved output directory, unless it is the root of the file
/// system.
pub fn accept_output(canonical: FilePath) -> (r: Result<FilePath, DownloadError>)
    ensures
        match r {
            Ok(path) => !is_topmost(canonical@) && path@ == canonical@,
            Err(error) => is_topmost(canonical@) && error@ == DownloadFault::UnsafeOutput(
                canonical@,
            ),
        },
{
    let count = canonical.components();
    if count == 0 || (canonical.is_absolute() && count == 1) {
        Err(DownloadError::UnsafeOutput(canonical))
    } else {
        Ok(canonical)
    }
}

// ------------------------------------------------------------------- snapshots

/// What a directory entry is.
#[derive(Debug, Clone, Copy, PartialEq, Eq, Structural)]
pub enum EntryKind {
    Symlink,
    Directory,
    /// A regular file with its size, as far as that could be read.
    File(Option<u64>),
    Other,
}

/// An entry of a directory.
#[derive(Debug, PartialEq, Eq)]
pub struct DirectoryEntry {
    pub name: FilePath,
    pub kind: EntryKind,
}

/// Entries by their values.
pub open spec fn entry_views(entries: Seq<DirectoryEntry>) -> Seq<(Seq<u8>, EntryKind)> {
    Seq::new(entries.len(), |i: int| (entries[i].name@, entries[i].kind))
}

/// What was found at a directory.
#[derive(Debug, PartialEq, Eq)]
pub enum Listing {
    /// It could not be resolved.
    Unresolved,
    /// It is at this place and has these entries; none where it could not be
    /// read.
    Found { canonical: FilePath, entries: Vec<DirectoryEntry> },
}

/// A listing by its values.
pub enum ListingModel {
    Unresolved,
    Found(Seq<u8>, Seq<(Seq<u8>, EntryKind)>),
}

impl View for Listing {
    type V = ListingModel;

    open spec fn view(&self) -> ListingModel {
        match self {
            Listing::Unresolved => ListingModel::Unresolved,
            Listing::Found { canonical, entries } => ListingModel::Found(
                canonical@,
                entry_views(entries@),
            ),
        }
    }
}

/// Why a walk was given up.
#[derive(Debug, Clone, Copy, PartialEq, Eq, Structural)]
pub enum WalkFailure {
    TooDeep,
    TooMany,
}

/// What each failure says.
pub open spec fn walk_failure_text(failure: WalkFailure) -> Seq<char> {
    match failure {
        WalkFailure::TooDeep => "directory nesting exceeds the attribution limit"@,
        WalkFailure::TooMany => "file count exceeds the attribution limit"@,
    }
}

/// Something that a walk has yet to look at: its path below the root, how deep
/// it is, and what it is.
#[verifier::ext_equal]
pub struct ItemModel {
    pub path: Seq<u8>,
    pub depth: nat,
    pub kind: EntryKind,
}

/// The state of a walk. What is looked at next is at the end of `todo`.
#[verifier::ext_equal]
pub struct WalkModel {
    pub todo: Seq<ItemModel>,
    pub visited: Seq<Seq<u8>>,
    pub files: Seq<(Seq<u8>, u64)>,
    pub pending: Option<(Seq<u8>, nat)>,
    pub failure: Option<WalkFailure>,
}

/// Where a path is among files.
pub open spec fn file_position(files: Seq<(Seq<u8>, u64)>, path: Seq<u8>, from: int) -> Option<int>
    decreases files.len() - from,
{
    if from < 0 || from >= files.len() {
        None
    } else if paths::same_path(files[from].0, path) {
        Some(from)
    } else {
        file_position(files, path, from + 1)
    }
}

/// The files with one more; one with the same path gets the size.
pub open spec fn with_file(files: Seq<(Seq<u8>, u64)>, path: Seq<u8>, size: u64) -> Seq<
    (Seq<u8>, u64),
> {
    match file_position(files, path, 0) {
        Some(at) => files.update(at, (files[at].0, size)),
        None => files.push((path, size)),
    }
}

/// Whether a place was seen before.
pub open spec fn was_seen(visited: Seq<Seq<u8>>, place: Seq<u8>) -> bool {
    exists|i: int| 0 <= i < visited.len() && paths::same_path(#[trigger] visited[i], place)
}

impl WalkModel {
    /// Looks at what is to be looked at until a directory must be listed, a limit
    /// is passed, or nothing is left. Symbolic links are never followed.
    pub open spec fn advanced(self) -> WalkModel
        decreases self.todo.len(),
    {
        if self.todo.len() == 0 || self.pending is Some || self.failure is Some {
            self
        } else {
            let item = self.todo.last();
            let rest = WalkModel { todo: self.todo.drop_last(), ..self };
            match item.kind {
                EntryKind::Directory => if item.depth > MAX_SNAPSHOT_DEPTH {
                    WalkModel { failure: Some(WalkFailure::TooDeep), ..rest }
                } else {
                    WalkModel { pending: Some((item.path, item.depth)), ..rest }
                },
                EntryKind::File(Some(size)) => if self.files.len() >= MAX_SNAPSHOT_ENTRIES {
                    WalkModel { failure: Some(WalkFailure::TooMany), ..rest }
                } else {
                    WalkModel { files: with_file(self.files, item.path, size), ..rest }.advanced()
                },
                _ => rest.advanced(),
            }
        }
    }

    /// The state once the directory it waits for was listed. A directory that
    /// was seen before, or could not be resolved, is passed over.
    pub open spec fn listed(self, listing: ListingModel) -> WalkModel {
        match self.pending {
            None => self,
            Some((path, depth)) => {
                let open = WalkModel { pending: None, ..self };
                match listing {
                    ListingModel::Unresolved => open.advanced(),
                    ListingModel::Found(canonical, entries) => if was_seen(self.visited, canonical) {
                        open.advanced()
                    } else {
                        WalkModel {
                            visited: self.visited.push(canonical),
                            todo: self.todo + below(path, depth, entries),
                            ..open
                        }.advanced()
                    },
                }
            },
        }
    }
}

/// The entries of a directory as items, the first one last.
pub open spec fn below(path: Seq<u8>, depth: nat, entries: Seq<(Seq<u8>, EntryKind)>) -> Seq<
    ItemModel,
> {
    Seq::new(
        entries.len(),
        |i: int|
            ItemModel {
                path: paths::joined(path, entries[entries.len() - 1 - i].0),
                depth: depth + 1,
                kind: entries[entries.len() - 1 - i].1,
            },
    )
}

/// The state in which a walk starts: it waits for its root.
pub open spec fn walk_start() -> WalkModel {
    WalkModel {
        todo: Seq::empty(),
        visited: Seq::empty(),
        files: Seq::empty(),
        pending: Some((Seq::empty(), 0)),
        failure: None,
    }
}

struct Item {
    path: FilePath,
    depth: usize,
    kind: EntryKind,
}

spec fn item_views(items: Seq<Item>) -> Seq<ItemModel> {
    Seq::new(
        items.len(),
        |i: int|
            ItemModel { path: items[i].path@, depth: items[i].depth as nat, kind: items[i].kind },
    )
}

/// A walk over the files below a directory.
pub struct Walk {
    todo: Vec<Item>,
    visited: Vec<FilePath>,
    files: Vec<DownloadedFile>,
    pending: Option<(FilePath, usize)>,
    failure: Option<WalkFailure>,
}

impl View for Walk {
    type V = WalkModel;

    closed spec fn view(&self) -> WalkModel {
        WalkModel {
            todo: item_views(self.todo@),
            visited: paths::path_views(self.visited@),
            files: file_views(self.files@),
            pending: match self.pending {
                Some((path, depth)) => Some((path@, depth as nat)),
                None => None,
            },
            failure: self.failure,
        }
    }
}

fn put_file(files: &mut Vec<DownloadedFile>, file: DownloadedFile)
    ensures
        file_views(final(files)@) == with_file(
            file_views(old(files)@),
            file@.0,
            file@.1,
        ),
{
    let ghost before = file_views(files@);
    let mut i: usize = 0;
    while i < files.len()
        invariant
            i <= files@.len(),
            files@ == old(files)@,
            before == file_views(files@),
            file_position(before, file@.0, i as int) == file_position(before, file@.0, 0),
        decreases files@.len() - i,
    {
        if files[i].relative_path.same(&file.relative_path) {
            proof {
                assert(paths::same_path(before[i as int].0, file@.0));
            }
            let known = DownloadedFile {
                relative_path: files[i].relative_path.clone(),
                size_bytes: file.size_bytes,
            };
            files.set(i, known);
            proof {
                assert(file_views(files@) =~= before.update(
                    i as int,
                    (before[i as int].0, file@.1),
                ));
            }
            return;
        }
        proof {
            assert(before[i as int] == files@[i as int]@);
        }
        i = i + 1;
    }
    files.push(file);
    proof {
        assert(file_views(files@) =~= before.push(file@));
    }
}

fn is_visited(visited: &Vec<FilePath>, path: &FilePath) -> (r: bool)
    ensures
        r == was_seen(paths::path_views(visited@), path@),
{
    let ghost all = paths::path_views(visited@);
    let mut i: usize = 0;
    while i < visited.len()
        invariant
            i <= visited@.len(),
            all == paths::path_views(visited@),
            forall|j: int| 0 <= j < i ==> !paths::same_path(#[trigger] all[j], path@),
        decreases visited@.len() - i,
    {
        if visited[i].same(path) {
            proof {
                assert(paths::same_path(all[i as int], path@));
            }
            return true;
        }
        i = i + 1;
    }
    false
}

impl Walk {
    /// What holds of every walk: a directory that it waits for is no deeper than
    /// allowed.
    pub closed spec fn is_sound(&self) -> bool {
        self.pending matches Some((_, depth)) ==> depth <= MAX_SNAPSHOT_DEPTH
    }

    /// A walk that waits for its root.
    pub fn new() -> (r: Walk)
        ensures
            r@ == walk_start(),
            r.is_sound(),
    {
        let walk = Walk {
            todo: Vec::new(),
            visited: Vec::new(),
            files: Vec::new(),
            pending: Some((FilePath::from_bytes(Vec::new()), 0)),
            failure: None,
        };
        proof {
            assert(walk@ =~= walk_start());
        }
        walk
    }

    /// The directory to list next, by its path below the root; none when the walk
    /// is over.
    pub fn request(&self) -> (r: Option<&FilePath>)
        ensures
            match (r, self@.pending) {
                (Some(path), Some(expected)) => path@ == expected.0,
                (None, None) => true,
                _ => false,
            },
    {
        match &self.pending {
            Some((path, _)) => Some(path),
            None => None,
        }
    }

    fn advance(&mut self)
        requires
            old(self).is_sound(),
        ensures
            final(self)@ == old(self)@.advanced(),
            final(self).is_sound(),
    {
        while self.todo.len() > 0 && self.pending.is_none() && self.failure.is_none()
            invariant
                self.is_sound(),
                self@.advanced() == old(self)@.advanced(),
            decreases self.todo@.len(),
        {
            let ghost before = self@;
            proof {
                assert(before.todo.last() == (ItemModel {
                    path: self.todo@.last().path@,
                    depth: self.todo@.last().depth as nat,
                    kind: self.todo@.last().kind,
                }));
            }
            if let Some(item) = self.todo.pop() {
                proof {
                    assert(item_views(self.todo@) =~= before.todo.drop_last());
                }
                match item.kind {
                    EntryKind::Directory => {
                        if item.depth > MAX_SNAPSHOT_DEPTH {
                            self.failure = Some(WalkFailure::TooDeep);
                        } else {
                            self.pending = Some((item.path, item.depth));
                        }
                    },
                    EntryKind::File(Some(size_bytes)) => {
                        if self.files.len() >= MAX_SNAPSHOT_ENTRIES {
                            self.failure = Some(WalkFailure::TooMany);
                        } else {
                            put_file(
                                &mut self.files,
                                DownloadedFile { relative_path: item.path, size_bytes },
                            );
                        }
                    },
                    _ => {},
                }
                proof {
                    let rest = WalkModel { todo: before.todo.drop_last(), ..before };
                    let kind = before.todo.last().kind;
                    if kind == EntryKind::Directory {
                        if before.todo.last().depth > MAX_SNAPSHOT_DEPTH {
                            assert(self@ =~= (WalkModel {
                                failure: Some(WalkFailure::TooDeep),
                                ..rest
                            }));
                        } else {
                            assert(self@ =~= (WalkModel {
                                pending: Some(
                                    (before.todo.last().path, before.todo.last().depth),
                                ),
                                ..rest
                            }));
                        }
                    } else if let EntryKind::File(Some(size)) = kind {
                        if before.files.len() >= MAX_SNAPSHOT_ENTRIES {
                            assert(self@ =~= (WalkModel {
                                failure: Some(WalkFailure::TooMany),
                                ..rest
                            }));
                        } else {
                            assert(self@ =~= (WalkModel {
                                files: with_file(before.files, before.todo.last().path, size),
                                ..rest
                            }));
                        }
                    } else {
                        assert(self@ =~= rest);
                    }
                }
            }
        }
    }

    /// Takes in the listing of the directory that the walk waits for.
    pub fn supply(&mut self, listing: Listing)
        requires
            old(self).is_sound(),
        ensures
            final(self)@ == old(self)@.listed(listing@),
            final(self).is_sound(),
    {
        let ghost before = self@;
        let (path, depth) = match self.pending.take() {
            Some(wanted) => wanted,
            None => {
                proof {
                    assert(self@ =~= before);
                }
                return;
            },
        };
        let ghost open = WalkModel { pending: None, ..before };
        proof {
            assert(self@ =~= open);
        }
        if let Listing::Found { canonical, entries } = listing {
            if !is_visited(&self.visited, &canonical) {
                let ghost known = paths::path_views(self.visited@);
                self.visited.push(canonical);
                proof {
                    assert(paths::path_views(self.visited@) =~= known.push(canonical@));
                }
                let ghost todo = item_views(self.todo@);
                let ghost all = below(path@, depth as nat, entry_views(entries@));
                let mut i: usize = entries.len();
                proof {
                    assert(todo + all.take(0) =~= todo);
                }
                while i > 0
                    invariant
                        i <= entries@.len(),
                        depth <= MAX_SNAPSHOT_DEPTH,
                        self.pending is None,
                        self.visited@ == old(self).visited@.push(canonical),
                        self.files@ == old(self).files@,
                        self.failure == old(self).failure,
                        all == below(path@, depth as nat, entry_views(entries@)),
                        item_views(self.todo@) == todo + all.take(entries@.len() - i),
                    decreases i,
                {
                    i = i - 1;
                    let ghost sofar = item_views(self.todo@);
                    let item = Item {
                        path: path.join(&entries[i].name),
                        depth: depth + 1,
                        kind: entries[i].kind,
                    };
                    self.todo.push(item);
                    proof {
                        let at = entries@.len() - 1 - i;
                        assert(item_views(self.todo@) =~= sofar.push(
                            ItemModel {
                                path: item.path@,
                                depth: item.depth as nat,
                                kind: item.kind,
                            },
                        ));
                        assert(all[at] == (ItemModel {
                            path: item.path@,
                            depth: item.depth as nat,
                            kind: item.kind,
                        }));
                        assert(todo + all.take(at + 1) =~= (todo + all.take(at)).push(all[at]));
                    }
                }
                proof {
                    assert(all.take(all.len() as int) =~= all);
                    assert(self@ =~= (WalkModel {
                        visited: before.visited.push(canonical@),
                        todo: before.todo + all,
                        ..open
                    }));
                }
            }
        }
        self.advance();
    }

    /// The files that were found, or why the walk was given up.
    pub fn finish(self) -> (r: Result<Vec<DownloadedFile>, DownloadError>)
        ensures
            match (r, self@.failure) {
                (Ok(files), None) => file_views(files@) == self@.files,
                (Err(error), Some(failure)) => error@ == DownloadFault::OutputInspection(
                    walk_failure_text(failure),
                ),
                _ => false,
            },
    {
        match self.failure {
            Some(WalkFailure::TooDeep) => Err(
                DownloadError::OutputInspection("directory nesting exceeds the attribution limit"),
            ),
            Some(WalkFailure::TooMany) => Err(
                DownloadError::OutputInspection("file count exceeds the attribution limit"),
            ),
            None => Ok(self.files),
        }
    }
}

/// What holds of every state of a walk: the files have different paths and are
/// within their limit, no directory was seen twice, and the one that is waited
/// for is no deeper than allowed.
pub open spec fn walk_is_bounded(m: WalkModel) -> bool {
    &&& m.files.len() <= MAX_SNAPSHOT_ENTRIES
    &&& distinct_paths(m.files)
    &&& forall|i: int, j: int|
        0 <= i < j < m.visited.len() ==> !paths::same_path(
            #[trigger] m.visited[i],
            #[trigger] m.visited[j],
        )
    &&& m.pending matches Some(wanted) ==> wanted.1 <= MAX_SNAPSHOT_DEPTH
}

/// No two files have the same path.
pub open spec fn distinct_paths(files: Seq<(Seq<u8>, u64)>) -> bool {
    forall|i: int, j: int|
        0 <= i < j < files.len() ==> !paths::same_path(
            (#[trigger] files[i]).0,
            (#[trigger] files[j]).0,
        )
}

proof fn file_position_bounds(files: Seq<(Seq<u8>, u64)>, path: Seq<u8>, from: int)
    requires
        0 <= from,
    ensures
        match file_position(files, path, from) {
            Some(at) => from <= at < files.len() && paths::same_path(files[at].0, path),
            None => forall|i: int|
                from <= i < files.len() ==> !paths::same_path((#[trigger] files[i]).0, path),
        },
    decreases files.len() - from,
{
    if from < files.len() {
        file_position_bounds(files, path, from + 1);
    }
}

proof fn advanced_is_bounded(m: WalkModel)
    requires
        walk_is_bounded(m),
    ensures
        walk_is_bounded(m.advanced()),
        m.advanced().visited == m.visited,
    decreases m.todo.len(),
{
    if m.todo.len() > 0 && m.pending is None && m.failure is None {
        let item = m.todo.last();
        let rest = WalkModel { todo: m.todo.drop_last(), ..m };
        match item.kind {
            EntryKind::File(Some(size)) => {
                if m.files.len() < MAX_SNAPSHOT_ENTRIES {
                    file_position_bounds(m.files, item.path, 0);
                    let next = WalkModel { files: with_file(m.files, item.path, size), ..rest };
                    assert(distinct_paths(next.files)) by {
                        let files = next.files;
                        assert forall|i: int, j: int|
                            0 <= i < j < files.len() implies !paths::same_path(
                            (#[trigger] files[i]).0,
                            (#[trigger] files[j]).0,
                        ) by {
                            if j < m.files.len() {
                                assert(!paths::same_path(m.files[i].0, m.files[j].0));
                                assert(files[i].0 == m.files[i].0);
                                assert(files[j].0 == m.files[j].0);
                            } else {
                                assert(files[i].0 == m.files[i].0);
                            }
                        }
                    }
                    advanced_is_bounded(next);
                }
            },
            EntryKind::Directory => {},
            _ => {
                advanced_is_bounded(rest);
            },
        }
    }
}

/// A walk stays within its limits, whatever the directories hold.
pub proof fn walks_are_bounded(m: WalkModel, listing: ListingModel)
    requires
        walk_is_bounded(m),
    ensures
        walk_is_bounded(m.listed(listing)),
        walk_is_bounded(walk_start()),
{
    if let Some((path, depth)) = m.pending {
        let open = WalkModel { pending: None, ..m };
        match listing {
            ListingModel::Unresolved => advanced_is_bounded(open),
            ListingModel::Found(canonical, entries) => {
                if was_seen(m.visited, canonical) {
                    advanced_is_bounded(open);
                } else {
                    let next = WalkModel {
                        visited: m.visited.push(canonical),
                        todo: m.todo + below(path, depth, entries),
                        ..open
                    };
                    assert forall|i: int, j: int|
                        0 <= i < j < next.visited.len() implies !paths::same_path(
                        #[trigger] next.visited[i],
                        #[trigger] next.visited[j],
                    ) by {
                        if j < m.visited.len() {
                            assert(!paths::same_path(m.visited[i], m.visited[j]));
                        } else {
                            assert(m.visited[i] == next.visited[i]);
                        }
                    }
                    advanced_is_bounded(next);
                }
            },
        }
    }
}

/// Symbolic links are passed over: neither recorded nor followed.
pub proof fn links_are_not_followed(m: WalkModel)
    requires
        m.todo.len() > 0,
        m.todo.last().kind == EntryKind::Symlink,
        m.pending is None,
        m.failure is None,
    ensures
        m.advanced() == (WalkModel { todo: m.todo.drop_last(), ..m }).advanced(),
{
}

// ---------------------------------------------------------------- whole walks

/// Whether a directory is reached from the root, this many directories deep and
/// never through a link. `tree` gives the listing of each directory by its path
/// below the root.
pub open spec fn is_reached(
    tree: spec_fn(Seq<u8>) -> ListingModel,
    path: Seq<u8>,
    depth: nat,
) -> bool
    decreases depth,
{
    if depth == 0 {
        path == Seq::<u8>::empty()
    } else {
        exists|parent: Seq<u8>, i: int|
            is_reached(tree, parent, (depth - 1) as nat) && #[trigger] holds_entry(
                tree,
                parent,
                i,
                path,
                EntryKind::Directory,
            )
    }
}

/// Whether entry `i` of a directory is at `path` and of this kind.
pub open spec fn holds_entry(
    tree: spec_fn(Seq<u8>) -> ListingModel,
    parent: Seq<u8>,
    i: int,
    path: Seq<u8>,
    kind: EntryKind,
) -> bool {
    match tree(parent) {
        ListingModel::Found(_, entries) => 0 <= i < entries.len() && entries[i].1 == kind && path
            == paths::joined(parent, entries[i].0),
        ListingModel::Unresolved => false,
    }
}

/// Whether a directory is reached from the root.
pub open spec fn is_below_root(tree: spec_fn(Seq<u8>) -> ListingModel, path: Seq<u8>) -> bool {
    exists|depth: nat| is_reached(tree, path, depth)
}

/// Whether a regular file with a readable size is reached from the root without a
/// link.
pub open spec fn is_reached_file(
    tree: spec_fn(Seq<u8>) -> ListingModel,
    path: Seq<u8>,
    size: u64,
) -> bool {
    exists|parent: Seq<u8>, i: int|
        is_below_root(tree, parent) && #[trigger] holds_entry(
            tree,
            parent,
            i,
            path,
            EntryKind::File(Some(size)),
        )
}

/// Whether listings are those of one tree: different directories are at different
/// places, and a path names one file.
pub open spec fn is_tree(tree: spec_fn(Seq<u8>) -> ListingModel) -> bool {
    &&& forall|p: Seq<u8>, q: Seq<u8>|
        #![trigger is_below_root(tree, p), is_below_root(tree, q)]
        is_below_root(tree, p) && is_below_root(tree, q) ==> (match (tree(p), tree(q)) {
            (ListingModel::Found(a, _), ListingModel::Found(b, _)) => paths::same_path(a, b) ==> p
                == q,
            _ => true,
        })
    &&& forall|p: Seq<u8>, m: u64, q: Seq<u8>, n: u64|
        #![trigger is_reached_file(tree, p, m), is_reached_file(tree, q, n)]
        is_reached_file(tree, p, m) && is_reached_file(tree, q, n) && paths::same_path(p, q) ==> p
            == q && m == n
}

/// Whether a directory needs no more looking at: it cannot be resolved, or its
/// place was seen.
spec fn is_done(tree: spec_fn(Seq<u8>) -> ListingModel, m: WalkModel, path: Seq<u8>) -> bool {
    match tree(path) {
        ListingModel::Unresolved => true,
        ListingModel::Found(canonical, _) => was_seen(m.visited, canonical),
    }
}

/// Whether something at a path is yet to be looked at.
spec fn is_noted(m: WalkModel, path: Seq<u8>, kind: EntryKind) -> bool {
    exists|i: int|
        0 <= i < m.todo.len() && (#[trigger] m.todo[i]).path == path && m.todo[i].kind == kind
}

/// Whether a directory waits to be listed.
spec fn is_pending(m: WalkModel, path: Seq<u8>) -> bool {
    m.pending matches Some(wanted) && wanted.0 == path
}

/// Whether an item of a walk stands in the tree.
spec fn is_in_tree(tree: spec_fn(Seq<u8>) -> ListingModel, item: ItemModel) -> bool {
    exists|parent: Seq<u8>, i: int|
        is_below_root(tree, parent) && #[trigger] holds_entry(
            tree,
            parent,
            i,
            item.path,
            item.kind,
        )
}

/// Nothing but what stands in the tree was found or is to be looked at.
spec fn is_faithful(tree: spec_fn(Seq<u8>) -> ListingModel, m: WalkModel) -> bool {
    &&& forall|i: int|
        0 <= i < m.files.len() ==> is_reached_file(
            tree,
            (#[trigger] m.files[i]).0,
            m.files[i].1,
        )
    &&& forall|i: int| 0 <= i < m.todo.len() ==> is_in_tree(tree, #[trigger] m.todo[i])
    &&& m.pending matches Some(wanted) ==> is_below_root(tree, wanted.0)
}

/// Nothing that stands in the tree was lost: what a directory holds that is done
/// with was found, is done with, or is to be looked at.
spec fn is_complete(tree: spec_fn(Seq<u8>) -> ListingModel, m: WalkModel) -> bool {
    &&& is_done(tree, m, Seq::empty()) || is_pending(m, Seq::empty())
    &&& forall|parent: Seq<u8>, i: int, path: Seq<u8>|
        is_below_root(tree, parent) && is_done(tree, m, parent) && #[trigger] holds_entry(
            tree,
            parent,
            i,
            path,
            EntryKind::Directory,
        ) ==> is_done(tree, m, path) || is_pending(m, path) || is_noted(
            m,
            path,
            EntryKind::Directory,
        )
    &&& forall|parent: Seq<u8>, i: int, path: Seq<u8>, size: u64|
        is_below_root(tree, parent) && is_done(tree, m, parent) && #[trigger] holds_entry(
            tree,
            parent,
            i,
            path,
            EntryKind::File(Some(size)),
        ) ==> m.files.contains((path, size)) || is_noted(m, path, EntryKind::File(Some(size)))
}

proof fn child_is_reached(
    tree: spec_fn(Seq<u8>) -> ListingModel,
    parent: Seq<u8>,
    i: int,
    path: Seq<u8>,
)
    requires
        is_below_root(tree, parent),
        holds_entry(tree, parent, i, path, EntryKind::Directory),
    ensures
        is_below_root(tree, path),
{
    let depth = choose|depth: nat| is_reached(tree, parent, depth);
    assert(is_reached(tree, path, depth + 1));
}

proof fn file_is_put(
    tree: spec_fn(Seq<u8>) -> ListingModel,
    files: Seq<(Seq<u8>, u64)>,
    path: Seq<u8>,
    size: u64,
)
    requires
        is_tree(tree),
        is_reached_file(tree, path, size),
        forall|i: int|
            0 <= i < files.len() ==> is_reached_file(tree, (#[trigger] files[i]).0, files[i].1),
    ensures
        with_file(files, path, size).contains((path, size)),
        forall|x: (Seq<u8>, u64)|
            files.contains(x) ==> #[trigger] with_file(files, path, size).contains(x),
        forall|i: int|
            0 <= i < with_file(files, path, size).len() ==> is_reached_file(
                tree,
                (#[trigger] with_file(files, path, size)[i]).0,
                with_file(files, path, size)[i].1,
            ),
{
    file_position_bounds(files, path, 0);
    let after = with_file(files, path, size);
    match file_position(files, path, 0) {
        Some(at) => {
            assert(is_reached_file(tree, files[at].0, files[at].1));
            assert(files[at] == (path, size));
            assert(after =~= files);
            assert(after[at] == (path, size));
        },
        None => {
            assert(after[files.len() as int] == (path, size));
            assert forall|x: (Seq<u8>, u64)| files.contains(x) implies #[trigger] after.contains(
                x,
            ) by {
                let k = choose|k: int| 0 <= k < files.len() && files[k] == x;
                assert(after[k] == x);
            }
        },
    }
}

/// Taking the last item off keeps what is noted, but for that item.
proof fn others_stay_noted(m: WalkModel, rest: WalkModel, path: Seq<u8>, kind: EntryKind)
    requires
        m.todo.len() > 0,
        rest.todo == m.todo.drop_last(),
        is_noted(m, path, kind),
    ensures
        is_noted(rest, path, kind) || m.todo.last().path == path && m.todo.last().kind == kind,
{
    let k = choose|k: int|
        0 <= k < m.todo.len() && (#[trigger] m.todo[k]).path == path && m.todo[k].kind == kind;
    if k < rest.todo.len() {
        assert(rest.todo[k] == m.todo[k]);
    }
}

proof fn passing_over_follows(
    tree: spec_fn(Seq<u8>) -> ListingModel,
    m: WalkModel,
    next: WalkModel,
)
    requires
        is_tree(tree),
        is_faithful(tree, m),
        is_complete(tree, m),
        m.todo.len() > 0,
        m.pending is None,
        ({
            let item = m.todo.last();
            let rest = WalkModel { todo: m.todo.drop_last(), ..m };
            match item.kind {
                EntryKind::Directory => next == (WalkModel {
                    pending: Some((item.path, item.depth)),
                    ..rest
                }),
                EntryKind::File(Some(size)) => next == (WalkModel {
                    files: with_file(m.files, item.path, size),
                    ..rest
                }),
                _ => next == rest,
            }
        }),
    ensures
        is_faithful(tree, next),
        is_complete(tree, next),
{
    let item = m.todo.last();
    assert(is_in_tree(tree, m.todo[m.todo.len() - 1]));
    let (parent, k) = choose|parent: Seq<u8>, k: int|
        is_below_root(tree, parent) && #[trigger] holds_entry(
            tree,
            parent,
            k,
            item.path,
            item.kind,
        );
    if item.kind == EntryKind::Directory {
        child_is_reached(tree, parent, k, item.path);
    }
    if let EntryKind::File(Some(size)) = item.kind {
        assert(is_reached_file(tree, item.path, size));
        file_is_put(tree, m.files, item.path, size);
    }
    assert(is_faithful(tree, next)) by {
        assert forall|i: int| 0 <= i < next.todo.len() implies is_in_tree(
            tree,
            #[trigger] next.todo[i],
        ) by {
            assert(next.todo[i] == m.todo[i]);
        }
    }
    assert forall|parent: Seq<u8>, i: int, path: Seq<u8>|
        is_below_root(tree, parent) && is_done(tree, next, parent) && #[trigger] holds_entry(
            tree,
            parent,
            i,
            path,
            EntryKind::Directory,
        ) implies is_done(tree, next, path) || is_pending(next, path) || is_noted(
        next,
        path,
        EntryKind::Directory,
    ) by {
        assert(is_done(tree, m, parent));
        if is_noted(m, path, EntryKind::Directory) {
            others_stay_noted(m, next, path, EntryKind::Directory);
        }
    }
    assert forall|parent: Seq<u8>, i: int, path: Seq<u8>, size: u64|
        is_below_root(tree, parent) && is_done(tree, next, parent) && #[trigger] holds_entry(
            tree,
            parent,
            i,
            path,
            EntryKind::File(Some(size)),
        ) implies next.files.contains((path, size)) || is_noted(
        next,
        path,
        EntryKind::File(Some(size)),
    ) by {
        assert(is_done(tree, m, parent));
        if is_noted(m, path, EntryKind::File(Some(size))) {
            others_stay_noted(m, next, path, EntryKind::File(Some(size)));
        }
    }
}

proof fn advancing_follows(tree: spec_fn(Seq<u8>) -> ListingModel, m: WalkModel)
    requires
        is_tree(tree),
        is_faithful(tree, m),
        is_complete(tree, m),
    ensures
        m.advanced().failure is None ==> is_faithful(tree, m.advanced()) && is_complete(
            tree,
            m.advanced(),
        ),
        m.advanced().failure is None ==> m.advanced().pending is Some || m.advanced().todo.len()
            == 0,
    decreases m.todo.len(),
{
    if m.todo.len() > 0 && m.pending is None && m.failure is None {
        let item = m.todo.last();
        let rest = WalkModel { todo: m.todo.drop_last(), ..m };
        match item.kind {
            EntryKind::Directory => {
                if item.depth <= MAX_SNAPSHOT_DEPTH {
                    passing_over_follows(
                        tree,
                        m,
                        WalkModel { pending: Some((item.path, item.depth)), ..rest },
                    );
                }
            },
            EntryKind::File(Some(size)) => {
                if m.files.len() < MAX_SNAPSHOT_ENTRIES {
                    let next = WalkModel { files: with_file(m.files, item.path, size), ..rest };
                    passing_over_follows(tree, m, next);
                    advancing_follows(tree, next);
                }
            },
            _ => {
                passing_over_follows(tree, m, rest);
                advancing_follows(tree, rest);
            },
        }
    }
}

/// The state right after a directory was listed, before anything in it is looked
/// at.
proof fn listing_follows(
    tree: spec_fn(Seq<u8>) -> ListingModel,
    m: WalkModel,
    next: WalkModel,
    canonical: Seq<u8>,
    entries: Seq<(Seq<u8>, EntryKind)>,
)
    requires
        is_tree(tree),
        is_faithful(tree, m),
        is_complete(tree, m),
        m.pending matches Some(wanted) && tree(wanted.0) == ListingModel::Found(canonical, entries)
            && next == (WalkModel {
            visited: m.visited.push(canonical),
            todo: m.todo + below(wanted.0, wanted.1, entries),
            pending: None,
            ..m
        }),
    ensures
        is_faithful(tree, next),
        is_complete(tree, next),
{
    let wanted = m.pending->0;
    let items = below(wanted.0, wanted.1, entries);
    assert(is_faithful(tree, next)) by {
        assert forall|k: int| 0 <= k < next.todo.len() implies is_in_tree(
            tree,
            #[trigger] next.todo[k],
        ) by {
            if k < m.todo.len() {
                assert(next.todo[k] == m.todo[k]);
            } else {
                let i = entries.len() - 1 - (k - m.todo.len());
                assert(next.todo[k] == items[k - m.todo.len()]);
                assert(holds_entry(tree, wanted.0, i, next.todo[k].path, next.todo[k].kind));
            }
        }
    }
    assert forall|place: Seq<u8>| was_seen(m.visited, place) implies #[trigger] was_seen(
        next.visited,
        place,
    ) by {
        let k = choose|k: int|
            0 <= k < m.visited.len() && paths::same_path(#[trigger] m.visited[k], place);
        assert(next.visited[k] == m.visited[k]);
    }
    assert(was_seen(next.visited, canonical)) by {
        assert(next.visited[m.visited.len() as int] == canonical);
    }
    assert forall|path: Seq<u8>, kind: EntryKind| #[trigger]
        is_noted(m, path, kind) implies is_noted(next, path, kind) by {
        let k = choose|k: int|
            0 <= k < m.todo.len() && (#[trigger] m.todo[k]).path == path && m.todo[k].kind == kind;
        assert(next.todo[k] == m.todo[k]);
    }
    assert forall|parent: Seq<u8>| #[trigger]
        is_below_root(tree, parent) && is_done(tree, next, parent) implies is_done(tree, m, parent)
        || parent == wanted.0 by {
        if let ListingModel::Found(place, _) = tree(parent) {
            let k = choose|k: int|
                0 <= k < next.visited.len() && paths::same_path(#[trigger] next.visited[k], place);
            if k < m.visited.len() {
                assert(m.visited[k] == next.visited[k]);
            } else {
                assert(is_below_root(tree, wanted.0));
            }
        }
    }
    assert forall|i: int, path: Seq<u8>, kind: EntryKind| #[trigger]
        holds_entry(tree, wanted.0, i, path, kind) implies is_noted(next, path, kind) by {
        let k = m.todo.len() + (entries.len() - 1 - i);
        assert(next.todo[k] == items[entries.len() - 1 - i]);
    }
    assert forall|parent: Seq<u8>, i: int, path: Seq<u8>|
        is_below_root(tree, parent) && is_done(tree, next, parent) && #[trigger] holds_entry(
            tree,
            parent,
            i,
            path,
            EntryKind::Directory,
        ) implies is_done(tree, next, path) || is_pending(next, path) || is_noted(
        next,
        path,
        EntryKind::Directory,
    ) by {
        if parent != wanted.0 {
            assert(is_done(tree, m, parent));
        }
    }
    assert forall|parent: Seq<u8>, i: int, path: Seq<u8>, size: u64|
        is_below_root(tree, parent) && is_done(tree, next, parent) && #[trigger] holds_entry(
            tree,
            parent,
            i,
            path,
            EntryKind::File(Some(size)),
        ) implies next.files.contains((path, size)) || is_noted(
        next,
        path,
        EntryKind::File(Some(size)),
    ) by {
        if parent != wanted.0 {
            assert(is_done(tree, m, parent));
        }
    }
}

proof fn steps_follow(tree: spec_fn(Seq<u8>) -> ListingModel, m: WalkModel)
    requires
        is_tree(tree),
        is_faithful(tree, m),
        is_complete(tree, m),
        m.pending is Some,
    ensures
        ({
            let next = m.listed(tree((m.pending->0).0));
            &&& next.failure is None ==> is_faithful(tree, next) && is_complete(tree, next)
            &&& next.failure is None ==> next.pending is Some || next.todo.len() == 0
        }),
{
    let wanted = m.pending->0;
    let open = WalkModel { pending: None, ..m };
    match tree(wanted.0) {
        ListingModel::Found(canonical, entries) if !was_seen(m.visited, canonical) => {
            let next = WalkModel {
                visited: m.visited.push(canonical),
                todo: m.todo + below(wanted.0, wanted.1, entries),
                ..open
            };
            listing_follows(tree, m, next, canonical, entries);
            advancing_follows(tree, next);
        },
        _ => {
            assert(is_done(tree, m, wanted.0));
            assert forall|path: Seq<u8>| #[trigger] is_done(tree, open, path) == is_done(
                tree,
                m,
                path,
            ) by {}
            assert forall|path: Seq<u8>, kind: EntryKind| #[trigger]
                is_noted(m, path, kind) implies is_noted(open, path, kind) by {
                let k = choose|k: int|
                    0 <= k < m.todo.len() && (#[trigger] m.todo[k]).path == path && m.todo[k].kind
                        == kind;
                assert(open.todo[k] == m.todo[k]);
            }
            assert(is_faithful(tree, open));
            assert(is_complete(tree, open));
            advancing_follows(tree, open);
        },
    }
}

proof fn reached_is_done(
    tree: spec_fn(Seq<u8>) -> ListingModel,
    m: WalkModel,
    path: Seq<u8>,
    depth: nat,
)
    requires
        is_complete(tree, m),
        m.pending is None,
        m.todo.len() == 0,
        is_reached(tree, path, depth),
    ensures
        is_done(tree, m, path),
    decreases depth,
{
    if depth > 0 {
        let (parent, i) = choose|parent: Seq<u8>, i: int|
            is_reached(tree, parent, (depth - 1) as nat) && #[trigger] holds_entry(
                tree,
                parent,
                i,
                path,
                EntryKind::Directory,
            );
        reached_is_done(tree, m, parent, (depth - 1) as nat);
        assert(is_below_root(tree, parent));
    }
}

/// The states of a walk whose listings all come from `tree`, one after the other.
pub open spec fn is_walk_of(
    tree: spec_fn(Seq<u8>) -> ListingModel,
    states: Seq<WalkModel>,
) -> bool {
    &&& states.len() > 0
    &&& states[0] == walk_start()
    &&& forall|k: int|
        0 <= k < states.len() - 1 ==> ((#[trigger] states[k]).pending is Some && states[k + 1]
            == states[k].listed(tree((states[k].pending->0).0)))
}

proof fn walks_follow(
    tree: spec_fn(Seq<u8>) -> ListingModel,
    states: Seq<WalkModel>,
    k: int,
)
    requires
        is_tree(tree),
        is_walk_of(tree, states),
        0 <= k < states.len(),
    ensures
        states[k].failure is None ==> is_faithful(tree, states[k]) && is_complete(tree, states[k]),
        states[k].failure is None ==> states[k].pending is Some || states[k].todo.len() == 0,
        states[k].failure is Some ==> states[k].pending is None,
    decreases k,
{
    if k == 0 {
        assert(is_reached(tree, Seq::empty(), 0));
        assert(is_below_root(tree, Seq::empty()));
        let m = states[0];
        assert forall|parent: Seq<u8>| is_below_root(tree, parent) && #[trigger] is_done(
            tree,
            m,
            parent,
        ) implies tree(parent) is Unresolved by {}
    } else {
        let m = states[k - 1];
        walks_follow(tree, states, k - 1);
        assert(m.pending is Some);
        steps_follow(tree, m);
        failed_walks_wait_for_nothing(m, tree((m.pending->0).0));
    }
}

proof fn failed_advances_wait_for_nothing(m: WalkModel)
    requires
        m.failure is None,
    ensures
        m.advanced().failure is Some ==> m.advanced().pending is None,
    decreases m.todo.len(),
{
    if m.todo.len() > 0 && m.pending is None {
        let item = m.todo.last();
        let rest = WalkModel { todo: m.todo.drop_last(), ..m };
        match item.kind {
            EntryKind::Directory => {},
            EntryKind::File(Some(size)) => {
                if m.files.len() < MAX_SNAPSHOT_ENTRIES {
                    failed_advances_wait_for_nothing(
                        WalkModel { files: with_file(m.files, item.path, size), ..rest },
                    );
                }
            },
            _ => failed_advances_wait_for_nothing(rest),
        }
    }
}

proof fn failed_walks_wait_for_nothing(m: WalkModel, listing: ListingModel)
    requires
        m.pending is Some,
        m.failure is None,
    ensures
        m.listed(listing).failure is Some ==> m.listed(listing).pending is None,
{
    let wanted = m.pending->0;
    let open = WalkModel { pending: None, ..m };
    failed_advances_wait_for_nothing(open);
    if let ListingModel::Found(canonical, entries) = listing {
        failed_advances_wait_for_nothing(
            WalkModel {
                visited: m.visited.push(canonical),
                todo: m.todo + below(wanted.0, wanted.1, entries),
                ..open
            },
        );
    }
}

/// A walk that ends without a failure has found exactly the regular files with a
/// readable size that are reached from the root without a link, if its listings
/// were all those of one tree.
pub proof fn walks_find_every_file(
    tree: spec_fn(Seq<u8>) -> ListingModel,
    states: Seq<WalkModel>,
    path: Seq<u8>,
    size: u64,
)
    requires
        is_tree(tree),
        is_walk_of(tree, states),
        states.last().pending is None,
        states.last().failure is None,
    ensures
        states.last().files.contains((path, size)) <==> is_reached_file(tree, path, size),
{
    let m = states.last();
    walks_follow(tree, states, states.len() - 1);
    if m.files.contains((path, size)) {
        let k = choose|k: int| 0 <= k < m.files.len() && m.files[k] == (path, size);
        assert(is_reached_file(tree, m.files[k].0, m.files[k].1));
    }
    if is_reached_file(tree, path, size) {
        let (parent, i) = choose|parent: Seq<u8>, i: int|
            is_below_root(tree, parent) && #[trigger] holds_entry(
                tree,
                parent,
                i,
                path,
                EntryKind::File(Some(size)),
            );
        let depth = choose|depth: nat| is_reached(tree, parent, depth);
        reached_is_done(tree, m, parent, depth);
    }
}

// -------------------------------------------------------------------- new files

/// Whether files hold a path.
pub open spec fn has_path(files: Seq<(Seq<u8>, u64)>, path: Seq<u8>) -> bool {
    exists|i: int| 0 <= i < files.len() && paths::same_path((#[trigger] files[i]).0, path)
}

/// The files whose paths were not there before.
pub open spec fn added(before: Seq<(Seq<u8>, u64)>, after: Seq<(Seq<u8>, u64)>) -> Seq<
    (Seq<u8>, u64),
>
    decreases after.len(),
{
    if after.len() == 0 {
        Seq::empty()
    } else if has_path(before, after.last().0) {
        added(before, after.drop_last())
    } else {
        added(before, after.drop_last()).push(after.last())
    }
}

/// Whether one file comes after another, by path.
pub open spec fn file_after() -> spec_fn((Seq<u8>, u64), (Seq<u8>, u64)) -> bool {
    |left: (Seq<u8>, u64), right: (Seq<u8>, u64)|
        paths::path_order(left.0, right.0) == Order::After
}

/// The files that a download left, ordered by path.
pub open spec fn new_file_views(before: Seq<(Seq<u8>, u64)>, after: Seq<(Seq<u8>, u64)>) -> Seq<
    (Seq<u8>, u64),
> {
    ranking::ranked(added(before, after), file_after())
}

fn was_there(files: &Vec<DownloadedFile>, path: &FilePath) -> (r: bool)
    ensures
        r == has_path(file_views(files@), path@),
{
    let ghost all = file_views(files@);
    let mut i: usize = 0;
    while i < files.len()
        invariant
            i <= files@.len(),
            all == file_views(files@),
            forall|j: int| 0 <= j < i ==> !paths::same_path((#[trigger] all[j]).0, path@),
        decreases files@.len() - i,
    {
        if files[i].relative_path.same(path) {
            proof {
                assert(paths::same_path(all[i as int].0, path@));
            }
            return true;
        }
        i = i + 1;
    }
    false
}

fn place_file(list: &mut Vec<DownloadedFile>, file: DownloadedFile)
    ensures
        file_views(final(list)@) == ranking::placed(file_views(old(list)@), file@, file_after()),
{
    let ghost before = file_views(list@);
    let mut at: usize = list.len();
    while at > 0 && list[at - 1].relative_path.order(&file.relative_path) == Order::After
        invariant
            at <= list@.len(),
            before == file_views(list@),
            forall|i: int| at <= i < list@.len() ==> file_after()(#[trigger] before[i], file@),
        decreases at,
    {
        proof {
            assert(before[at as int - 1] == list@[at as int - 1]@);
        }
        at = at - 1;
    }
    proof {
        if at > 0 {
            assert(before[at as int - 1] == list@[at as int - 1]@);
        }
        ranking::placed_at(before, file@, file_after(), at as int);
    }
    list.insert(at, file);
    proof {
        assert(file_views(list@) =~= before.insert(at as int, file@));
    }
}

/// The files that are there after a download and were not before, ordered by
/// path.
pub fn new_files(before: &Vec<DownloadedFile>, after: &Vec<DownloadedFile>) -> (r: Vec<
    DownloadedFile,
>)
    ensures
        file_views(r@) == new_file_views(file_views(before@), file_views(after@)),
{
    let ghost all = file_views(after@);
    let ghost known = file_views(before@);
    let mut out: Vec<DownloadedFile> = Vec::new();
    let mut i: usize = 0;
    proof {
        assert(all.take(0) =~= Seq::empty());
        assert(file_views(out@) =~= Seq::empty());
    }
    while i < after.len()
        invariant
            i <= after@.len(),
            all == file_views(after@),
            known == file_views(before@),
            file_views(out@) == ranking::ranked(added(known, all.take(i as int)), file_after()),
        decreases after@.len() - i,
    {
        let ghost sofar = added(known, all.take(i as int));
        proof {
            assert(all.take(i as int + 1).drop_last() =~= all.take(i as int));
            assert(all.take(i as int + 1).last() == after@[i as int]@);
        }
        if !was_there(before, &after[i].relative_path) {
            proof {
                assert(sofar.push(after@[i as int]@).drop_last() =~= sofar);
            }
            place_file(&mut out, after[i].clone());
        }
        i = i + 1;
    }
    proof {
        assert(all.take(all.len() as int) =~= all);
    }
    out
}

proof fn added_holds(before: Seq<(Seq<u8>, u64)>, after: Seq<(Seq<u8>, u64)>, x: (Seq<u8>, u64))
    ensures
        added(before, after).contains(x) <==> after.contains(x) && !has_path(before, x.0),
    decreases after.len(),
{
    if after.len() > 0 {
        let rest = after.drop_last();
        added_holds(before, rest, x);
        let all = added(before, after);
        let front = added(before, rest);
        if after.contains(x) {
            let k = choose|k: int| 0 <= k < after.len() && after[k] == x;
            if k < rest.len() {
                assert(rest[k] == x);
            }
        }
        if rest.contains(x) {
            let k = choose|k: int| 0 <= k < rest.len() && rest[k] == x;
            assert(after[k] == x);
        }
        if front.contains(x) {
            let k = choose|k: int| 0 <= k < front.len() && front[k] == x;
            assert(all[k] == x);
        }
        if all.contains(x) && !front.contains(x) {
            let k = choose|k: int| 0 <= k < all.len() && all[k] == x;
            if k < front.len() {
                assert(front[k] == x);
            }
            assert(after[after.len() - 1] == x);
        }
        if x == after.last() && !has_path(before, x.0) {
            assert(all[all.len() - 1] == x);
        }
    }
}

/// What a download is said to have left is exactly what is there after it and
/// was not before, ordered by path.
pub proof fn new_files_are_exact(
    before: Seq<(Seq<u8>, u64)>,
    after: Seq<(Seq<u8>, u64)>,
    x: (Seq<u8>, u64),
)
    ensures
        new_file_views(before, after).contains(x) <==> after.contains(x) && !has_path(before, x.0),
        ranking::in_order(new_file_views(before, after), file_after()),
{
    broadcast use vstd::seq_lib::group_to_multiset_ensures;

    let list = added(before, after);
    let sorted = new_file_views(before, after);
    added_holds(before, after, x);
    ranking::ranked_keeps(list, file_after());
    assert(sorted.to_multiset().count(x) == list.to_multiset().count(x));
    assert(sorted.contains(x) <==> sorted.to_multiset().count(x) > 0);
    assert(list.contains(x) <==> list.to_multiset().count(x) > 0);
    assert(ranking::is_ranking(file_after())) by {
        let order = file_after();
        assert forall|a: (Seq<u8>, u64), b: (Seq<u8>, u64)| #[trigger] order(a, b) implies !order(
            b,
            a,
        ) by {
            crate::order::lex_order_flips(paths::path_codes(a.0), paths::path_codes(b.0));
        }
        assert forall|a: (Seq<u8>, u64), b: (Seq<u8>, u64), c: (Seq<u8>, u64)|
            !#[trigger] order(a, b) && !#[trigger] order(b, c) implies !order(a, c) by {
            crate::order::lex_order_chains(
                paths::path_codes(a.0),
                paths::path_codes(b.0),
                paths::path_codes(c.0),
            );
        }
    }
    ranking::ranked_in_order(list, file_after());
}

// --------------------------------------------------------------------- the run

/// How an interrupted client was ended.
#[derive(Debug, PartialEq, Eq)]
pub enum Reaping {
    KillFailed(String),
    TimedOut,
    WaitFailed(String),
    Reaped,
}

/// How the client's process ended.
#[derive(Debug, PartialEq, Eq)]
pub enum ClientEnd {
    SpawnFailed(String),
    WaitFailed(String),
    Exited { success: bool, status: String },
    Cancelled(Reaping),
}

/// What the end of a client means.
pub open spec fn client_outcome(kind: ClientKind, end: ClientEnd) -> Result<(), DownloadFault> {
    match end {
        ClientEnd::SpawnFailed(message) => Err(DownloadFault::Spawn(kind, message@)),
        ClientEnd::WaitFailed(message) => Err(DownloadFault::Spawn(kind, message@)),
        ClientEnd::Exited { success, status } => if success {
            Ok(())
        } else {
            Err(DownloadFault::NonzeroExit(kind, status@))
        },
        ClientEnd::Cancelled(reaping) => match reaping {
            Reaping::KillFailed(message) => Err(
                DownloadFault::Spawn(
                    kind,
                    "failed to terminate interrupted client: "@ + message@,
                ),
            ),
            Reaping::TimedOut => Err(
                DownloadFault::Spawn(kind, "timed out while reaping interrupted client"@),
            ),
            Reaping::WaitFailed(message) => Err(
                DownloadFault::Spawn(kind, "failed to reap interrupted client: "@ + message@),
            ),
            Reaping::Reaped => Err(DownloadFault::Interrupted),
        },
    }
}

/// Judges the end of a client.
pub fn judge_client(kind: ClientKind, end: ClientEnd) -> (r: Result<(), DownloadError>)
    ensures
        outcome_is(r, client_outcome(kind, end)),
{
    match end {
        ClientEnd::SpawnFailed(message) => Err(DownloadError::Spawn { client: kind, message }),
        ClientEnd::WaitFailed(message) => Err(DownloadError::Spawn { client: kind, message }),
        ClientEnd::Exited { success, status } => if success {
            Ok(())
        } else {
            Err(DownloadError::NonzeroExit { client: kind, status })
        },
        ClientEnd::Cancelled(reaping) => match reaping {
            Reaping::KillFailed(cause) => {
                let mut message = "failed to terminate interrupted client: ".to_string();
                message.append(cause.as_str());
                Err(DownloadError::Spawn { client: kind, message })
            },
            Reaping::TimedOut => Err(
                DownloadError::Spawn {
                    client: kind,
                    message: "timed out while reaping interrupted client".to_string(),
                },
            ),
            Reaping::WaitFailed(cause) => {
                let mut message = "failed to reap interrupted client: ".to_string();
                message.append(cause.as_str());
                Err(DownloadError::Spawn { client: kind, message })
            },
            Reaping::Reaped => Err(DownloadError::Interrupted),
        },
    }
}

} // verus!
