//! Laws of downloads: which client is run and how, where its files go, and which of
//! them are told.

use crate::config::DownloaderPreference;
use crate::download;
use crate::download_run;
use crate::download_run::{DownloadEvent, DownloadModel, DownloadStage};
use crate::downloader;
use crate::downloader::{
    ClientEnd, ClientKind, ClientProbe, DownloadFault, EntryKind, ListingModel, Reaping,
    WalkFailure, WalkModel,
};
use crate::order;
use crate::order::Order;
use crate::paths;
use vstd::prelude::*;

verus! {

// -------------------------------------------------------------------- clients

/// `at` is the first directory in which an executable file was found.
pub open spec fn is_found_at(marks: Seq<bool>, directories: Seq<Seq<u8>>, at: int) -> bool {
    &&& 0 <= at < directories.len()
    &&& at < marks.len()
    &&& marks[at]
    &&& forall|i: int| 0 <= i < at ==> !#[trigger] marks[i]
}

/// No directory holds an executable file.
pub open spec fn is_found_nowhere(marks: Seq<bool>, directories: Seq<Seq<u8>>) -> bool {
    forall|i: int| 0 <= i < marks.len() && i < directories.len() ==> !#[trigger] marks[i]
}

proof fn first_mark_decides(files: Seq<Seq<u8>>, marks: Seq<bool>, at: int)
    requires
        is_found_at(marks, files, at),
    ensures
        crate::browser::first_marked(files, marks) == Some(files[at]),
    decreases at,
{
    if at > 0 {
        assert(!marks[0]);
        assert(marks.drop_first()[at - 1] == marks[at]);
        assert forall|i: int| 0 <= i < at - 1 implies !#[trigger] marks.drop_first()[i] by {
            assert(marks.drop_first()[i] == marks[i + 1]);
        }
        first_mark_decides(files.drop_first(), marks.drop_first(), at - 1);
    }
}

proof fn no_mark_finds_nothing(files: Seq<Seq<u8>>, marks: Seq<bool>)
    requires
        is_found_nowhere(marks, files),
    ensures
        crate::browser::first_marked(files, marks) is None,
    decreases files.len(),
{
    if files.len() > 0 && marks.len() > 0 {
        assert(!marks[0]);
        assert forall|i: int|
            0 <= i < marks.drop_first().len() && i < files.drop_first().len() implies !#[trigger] marks.drop_first()[i] by {
            assert(marks.drop_first()[i] == marks[i + 1]);
        }
        no_mark_finds_nothing(files.drop_first(), marks.drop_first());
    }
}

/// Where nothing else is asked for, or `aria2c` is, the first `aria2c` on the search
/// path is used, whatever other clients are there.
pub proof fn the_first_aria2c_is_used(
    wanted: DownloaderPreference,
    directories: Seq<Seq<u8>>,
    probe: ClientProbe,
    at: int,
)
    requires
        wanted == DownloaderPreference::Auto || wanted == DownloaderPreference::Aria2c,
        is_found_at(probe.aria2c@, directories, at),
    ensures
        downloader::chosen_client(wanted, directories, probe) == Ok::<
            (ClientKind, Seq<u8>),
            DownloadFault,
        >(
            (
                ClientKind::Aria2c,
                paths::joined(directories[at], vstd::utf8::encode_utf8("aria2c"@)),
            ),
        ),
{
    let files = downloader::client_files(ClientKind::Aria2c, directories);
    assert(files.len() == directories.len());
    first_mark_decides(files, probe.aria2c@, at);
    reveal_with_fuel(downloader::first_usable, 2);
}

/// Without `aria2c` there is no client to use: it is the missing one where it was
/// asked for, and otherwise there is none that could be used.
pub proof fn nothing_replaces_aria2c(directories: Seq<Seq<u8>>, probe: ClientProbe)
    requires
        is_found_nowhere(probe.aria2c@, directories),
    ensures
        downloader::chosen_client(DownloaderPreference::Auto, directories, probe) == Err::<
            (ClientKind, Seq<u8>),
            DownloadFault,
        >(DownloadFault::MissingClient),
        downloader::chosen_client(DownloaderPreference::Aria2c, directories, probe) == Err::<
            (ClientKind, Seq<u8>),
            DownloadFault,
        >(DownloadFault::ConfiguredClientMissing(ClientKind::Aria2c)),
{
    no_mark_finds_nothing(
        downloader::client_files(ClientKind::Aria2c, directories),
        probe.aria2c@,
    );
    reveal_with_fuel(downloader::first_usable, 4);
    let kinds = seq![ClientKind::Aria2c, ClientKind::TransmissionCli, ClientKind::QbittorrentNox];
    assert(kinds.drop_first()[0] == ClientKind::TransmissionCli);
    assert(kinds.drop_first().drop_first()[0] == ClientKind::QbittorrentNox);
    assert(kinds.drop_first().drop_first().drop_first().len() == 0);
}

/// The other clients are refused where they are asked for: as unusable where they
/// are there, and as missing where they are not.
pub proof fn other_clients_are_refused(directories: Seq<Seq<u8>>, probe: ClientProbe, at: int)
    ensures
        is_found_at(probe.transmission_cli@, directories, at) ==> downloader::chosen_client(
            DownloaderPreference::TransmissionCli,
            directories,
            probe,
        ) == Err::<(ClientKind, Seq<u8>), DownloadFault>(
            DownloadFault::UnsupportedClient(
                ClientKind::TransmissionCli,
                "transmission-cli has no supported stop-seeding-on-completion option"@,
            ),
        ),
        is_found_nowhere(probe.transmission_cli@, directories) ==> downloader::chosen_client(
            DownloaderPreference::TransmissionCli,
            directories,
            probe,
        ) == Err::<(ClientKind, Seq<u8>), DownloadFault>(
            DownloadFault::ConfiguredClientMissing(ClientKind::TransmissionCli),
        ),
        is_found_at(probe.qbittorrent_nox@, directories, at) ==> downloader::chosen_client(
            DownloaderPreference::QbittorrentNox,
            directories,
            probe,
        ) == Err::<(ClientKind, Seq<u8>), DownloadFault>(
            DownloadFault::UnsupportedClient(
                ClientKind::QbittorrentNox,
                "qbittorrent-nox is a long-running service and has no foreground per-download completion mode"@,
            ),
        ),
        is_found_nowhere(probe.qbittorrent_nox@, directories) ==> downloader::chosen_client(
            DownloaderPreference::QbittorrentNox,
            directories,
            probe,
        ) == Err::<(ClientKind, Seq<u8>), DownloadFault>(
            DownloadFault::ConfiguredClientMissing(ClientKind::QbittorrentNox),
        ),
{
    let transmission = downloader::client_files(ClientKind::TransmissionCli, directories);
    let qbittorrent = downloader::client_files(ClientKind::QbittorrentNox, directories);
    assert(transmission.len() == directories.len());
    assert(qbittorrent.len() == directories.len());
    if is_found_at(probe.transmission_cli@, directories, at) {
        first_mark_decides(transmission, probe.transmission_cli@, at);
    }
    if is_found_nowhere(probe.transmission_cli@, directories) {
        no_mark_finds_nothing(transmission, probe.transmission_cli@);
    }
    if is_found_at(probe.qbittorrent_nox@, directories, at) {
        first_mark_decides(qbittorrent, probe.qbittorrent_nox@, at);
    }
    if is_found_nowhere(probe.qbittorrent_nox@, directories) {
        no_mark_finds_nothing(qbittorrent, probe.qbittorrent_nox@);
    }
}

/// What `aria2c` is told: not to seed, the directory as it is, and the magnet link
/// as it is, in this order and nothing else. The other clients are told nothing.
pub proof fn aria2c_is_told_where_and_what(magnet: Seq<char>, output: Seq<u8>)
    ensures
        downloader::client_arguments(ClientKind::Aria2c, magnet, output) == Ok::<
            Seq<Seq<u8>>,
            DownloadFault,
        >(
            seq![
                vstd::utf8::encode_utf8("--seed-time=0"@),
                vstd::utf8::encode_utf8("--dir"@),
                output,
                vstd::utf8::encode_utf8(magnet),
            ],
        ),
        downloader::client_arguments(ClientKind::TransmissionCli, magnet, output) is Err,
        downloader::client_arguments(ClientKind::QbittorrentNox, magnet, output) is Err,
{
}

/// Only a client that exits with success has downloaded anything. One that was ended
/// for an interruption is told apart from one that could not be ended.
pub proof fn only_success_is_success(kind: ClientKind, end: ClientEnd)
    ensures
        downloader::client_outcome(kind, end) is Ok <==> (end matches ClientEnd::Exited {
            success,
            status,
        } && success),
        downloader::client_outcome(kind, end) == Err::<(), DownloadFault>(
            DownloadFault::Interrupted,
        ) <==> end == ClientEnd::Cancelled(Reaping::Reaped),
        match end {
            ClientEnd::SpawnFailed(message) => downloader::client_outcome(kind, end) == Err::<
                (),
                DownloadFault,
            >(DownloadFault::Spawn(kind, message@)),
            ClientEnd::WaitFailed(message) => downloader::client_outcome(kind, end) == Err::<
                (),
                DownloadFault,
            >(DownloadFault::Spawn(kind, message@)),
            ClientEnd::Exited { success, status } => !success ==> downloader::client_outcome(
                kind,
                end,
            ) == Err::<(), DownloadFault>(DownloadFault::NonzeroExit(kind, status@)),
            ClientEnd::Cancelled(reaping) => reaping is Reaped || (downloader::client_outcome(
                kind,
                end,
            ) matches Err(DownloadFault::Spawn(told, _)) && told == kind),
        },
{
}

// ------------------------------------------------------------ output directory

/// A byte that is neither a slash nor a full stop.
pub open spec fn is_name_byte(byte: u8) -> bool {
    byte != 0x2f && byte != 0x2e
}

proof fn name_bytes_name(path: Seq<u8>, at: int)
    requires
        0 <= at < path.len(),
        is_name_byte(path[at]),
    ensures
        paths::names(path).len() > 0,
    decreases path.len(),
{
    let size = paths::name_size(path);
    size_is_front(path);
    if at < size {
        assert(!(size == 1 && path[0] == 0x2e)) by {
            if size == 1 {
                assert(at == 0);
            }
        }
    } else {
        assert(size < path.len());
        assert(path[size as int] == 0x2f);
        assert(at > size);
        let rest = path.skip(size as int + 1);
        assert(rest[at - size - 1] == path[at]);
        name_bytes_name(rest, at - size - 1);
    }
}

proof fn size_is_front(path: Seq<u8>)
    ensures
        paths::name_size(path) <= path.len(),
        forall|i: int| 0 <= i < paths::name_size(path) ==> path[i] != 0x2f,
        paths::name_size(path) < path.len() ==> path[paths::name_size(path) as int] == 0x2f,
    decreases path.len(),
{
    if path.len() > 0 && path[0] != 0x2f {
        let rest = path.drop_first();
        size_is_front(rest);
        assert forall|i: int| 0 <= i < paths::name_size(path) implies path[i] != 0x2f by {
            if i > 0 {
                assert(rest[i - 1] == path[i]);
            }
        }
    }
}

proof fn slashes_name_nothing(path: Seq<u8>)
    requires
        forall|i: int| 0 <= i < path.len() ==> path[i] == 0x2f,
    ensures
        paths::names(path).len() == 0,
    decreases path.len(),
{
    if path.len() > 0 {
        assert(path[0] == 0x2f);
        let rest = path.skip(1);
        assert forall|i: int| 0 <= i < rest.len() implies rest[i] == 0x2f by {
            assert(rest[i] == path[i + 1]);
        }
        slashes_name_nothing(rest);
        assert(paths::names(path) =~= paths::names(rest));
    }
}

/// The root is refused as an output directory, however many slashes it is written
/// with, and no path that holds a name is.
pub proof fn only_the_root_is_refused(path: Seq<u8>)
    ensures
        (forall|i: int| 0 <= i < path.len() ==> path[i] == 0x2f) ==> downloader::is_topmost(path),
        (exists|i: int| 0 <= i < path.len() && #[trigger] is_name_byte(path[i]))
            ==> !downloader::is_topmost(path),
{
    if forall|i: int| 0 <= i < path.len() ==> path[i] == 0x2f {
        slashes_name_nothing(path);
        if path.len() > 0 {
            assert(path[0] == 0x2f);
        }
    }
    if exists|i: int| 0 <= i < path.len() && #[trigger] is_name_byte(path[i]) {
        let at = choose|i: int| 0 <= i < path.len() && #[trigger] is_name_byte(path[i]);
        name_bytes_name(path, at);
    }
}

// -------------------------------------------------------------------- the run

/// What is done about the requested directory: one that is there is resolved,
/// nothing is created, and anything else is refused.
pub proof fn output_directories_are_prepared(
    m: DownloadModel,
    exists: bool,
    is_directory: bool,
)
    requires
        m.stage == DownloadStage::Inspect,
    ensures
        ({
            let after = m.step(DownloadEvent::Inspected { exists, is_directory });
            &&& exists && is_directory ==> download_run::action_of(after)
                == download_run::DownloadActionModel::Resolve(m.requested)
            &&& !exists ==> download_run::action_of(after)
                == download_run::DownloadActionModel::Create(m.requested)
            &&& exists && !is_directory ==> after.result == Some(
                Err::<download_run::OutcomeModel, DownloadFault>(
                    DownloadFault::InvalidOutput(m.requested),
                ),
            )
        }),
{
}

/// A directory that could not be created or resolved is told with its path and the
/// reason; a created one is resolved, and a resolved one that is not the root is
/// used.
pub proof fn output_directories_are_resolved(
    m: DownloadModel,
    created: Result<(), String>,
    resolved: Result<paths::FilePath, String>,
)
    ensures
        m.stage == DownloadStage::Create ==> match created {
            Ok(_) => download_run::action_of(m.step(DownloadEvent::Created(created)))
                == download_run::DownloadActionModel::Resolve(m.requested),
            Err(message) => m.step(DownloadEvent::Created(created)).result == Some(
                Err::<download_run::OutcomeModel, DownloadFault>(
                    DownloadFault::OutputPreparation(m.requested, message@),
                ),
            ),
        },
        m.stage == DownloadStage::Resolve ==> match resolved {
            Ok(path) => {
                let after = m.step(DownloadEvent::Resolved(resolved));
                &&& (forall|i: int| 0 <= i < path@.len() ==> path@[i] == 0x2f) ==> after.result
                    == Some(
                    Err::<download_run::OutcomeModel, DownloadFault>(
                        DownloadFault::UnsafeOutput(path@),
                    ),
                )
                &&& (exists|i: int| 0 <= i < path@.len() && #[trigger] is_name_byte(path@[i])) ==> {
                    &&& after.stage == DownloadStage::Probe
                    &&& after.output == path@
                    &&& after.result == m.result
                }
            },
            Err(message) => m.step(DownloadEvent::Resolved(resolved)).result == Some(
                Err::<download_run::OutcomeModel, DownloadFault>(
                    DownloadFault::OutputPreparation(m.requested, message@),
                ),
            ),
        },
{
    if resolved is Ok {
        only_the_root_is_refused((resolved->Ok_0)@);
    }
}

/// The client that was chosen is run in the end: the directory is listed first, and
/// the client is run where it was found, with the magnet link and the directory.
pub proof fn chosen_clients_are_run(m: DownloadModel, probe: ClientProbe)
    requires
        m.stage == DownloadStage::Probe,
    ensures
        match downloader::chosen_client(m.wanted, m.directories, probe) {
            Ok(found) => {
                let after = m.step(DownloadEvent::Probed(probe));
                &&& after.stage == DownloadStage::ListBefore
                &&& after.client == Some(found)
                &&& after.output == m.output
                &&& after.magnet == m.magnet
                &&& found.0 == ClientKind::Aria2c ==> download_run::action_of(
                    (DownloadModel { stage: DownloadStage::Launch, ..after }),
                ) == download_run::DownloadActionModel::Launch(
                    found.1,
                    seq![
                        vstd::utf8::encode_utf8("--seed-time=0"@),
                        vstd::utf8::encode_utf8("--dir"@),
                        m.output,
                        vstd::utf8::encode_utf8(m.magnet.href),
                    ],
                )
            },
            Err(fault) => m.step(DownloadEvent::Probed(probe)).result == Some(
                Err::<download_run::OutcomeModel, DownloadFault>(fault),
            ),
        },
{
}

/// The output directory is listed before the client and again after it: what was
/// found before is kept, a client that failed ends the download, and what is told in
/// the end is what is new.
pub proof fn directories_are_listed_before_and_after(
    m: DownloadModel,
    listing: downloader::Listing,
    end: ClientEnd,
)
    ensures
        m.stage == DownloadStage::ListBefore && m.walk.listed(listing@).pending is None
            && m.walk.listed(listing@).failure is None ==> {
            let after = m.step(DownloadEvent::Listed(listing));
            &&& after.stage == DownloadStage::Launch
            &&& after.before == m.walk.listed(listing@).files
            &&& after.client == m.client
            &&& after.output == m.output
        },
        m.stage == DownloadStage::Launch && m.client is Some ==> {
            let after = m.step(DownloadEvent::Ended(end));
            &&& (end matches ClientEnd::Exited { success, status } && success) ==> {
                &&& after.stage == DownloadStage::ListAfter
                &&& after.result == m.result
                &&& after.before == m.before
            }
            &&& !(end matches ClientEnd::Exited { success, status } && success) ==> after.stage
                == DownloadStage::Done && after.result matches Some(Err(_))
        },
        m.stage == DownloadStage::ListAfter && m.client is Some && m.walk.listed(listing@).pending
            is None && m.walk.listed(listing@).failure is None ==> {
            let after = m.step(DownloadEvent::Listed(listing));
            &&& after.stage == DownloadStage::Done
            &&& after.result matches Some(Ok(outcome)) && {
                &&& outcome.client == (m.client->0).0
                &&& outcome.output == m.output
                &&& outcome.new_files == downloader::new_file_views(
                    m.before,
                    m.walk.listed(listing@).files,
                )
            }
        },
        (m.stage == DownloadStage::ListBefore || m.stage == DownloadStage::ListAfter)
            && m.walk.listed(listing@).pending is None ==> match m.walk.listed(listing@).failure {
            Some(WalkFailure::TooDeep) => m.step(DownloadEvent::Listed(listing)).result == Some(
                Err::<download_run::OutcomeModel, DownloadFault>(
                    DownloadFault::OutputInspection(
                        "directory nesting exceeds the attribution limit"@,
                    ),
                ),
            ),
            Some(WalkFailure::TooMany) => m.step(DownloadEvent::Listed(listing)).result == Some(
                Err::<download_run::OutcomeModel, DownloadFault>(
                    DownloadFault::OutputInspection("file count exceeds the attribution limit"@),
                ),
            ),
            None => true,
        },
{
}

/// A walk goes down to the thirty-second level and no further, counts ten thousand
/// files and no more, and passes over links and what it cannot read.
pub proof fn walks_have_limits(m: WalkModel)
    requires
        m.todo.len() > 0,
        m.pending is None,
        m.failure is None,
    ensures
        ({
            let item = m.todo.last();
            let rest = WalkModel { todo: m.todo.drop_last(), ..m };
            match item.kind {
                EntryKind::Directory => {
                    &&& item.depth <= 32 ==> m.advanced().pending == Some((item.path, item.depth))
                        && m.advanced().failure is None
                    &&& item.depth > 32 ==> m.advanced().failure == Some(WalkFailure::TooDeep)
                },
                EntryKind::File(Some(size)) => {
                    &&& m.files.len() >= 10_000 ==> m.advanced().failure == Some(
                        WalkFailure::TooMany,
                    )
                    &&& m.files.len() < 10_000 ==> {
                        let noted = WalkModel {
                            files: downloader::with_file(m.files, item.path, size),
                            ..rest
                        };
                        m.advanced() == noted.advanced()
                    }
                },
                EntryKind::File(None) => m.advanced() == rest.advanced(),
                EntryKind::Symlink => m.advanced() == rest.advanced(),
                _ => m.advanced() == rest.advanced(),
            }
        }),
{
}

/// What a directory holds is looked at one level below it, the first entry first,
/// and before anything else that is left.
pub proof fn entries_are_one_level_below(
    m: WalkModel,
    canonical: Seq<u8>,
    entries: Seq<(Seq<u8>, EntryKind)>,
    at: int,
)
    requires
        m.pending is Some,
        0 <= at < entries.len(),
        forall|i: int|
            0 <= i < m.visited.len() ==> !paths::same_path(#[trigger] m.visited[i], canonical),
    ensures
        exists|next: WalkModel|
            m.listed(ListingModel::Found(canonical, entries)) == #[trigger] next.advanced() && {
                &&& next.todo.len() == m.todo.len() + entries.len()
                &&& next.todo[m.todo.len() + entries.len() - 1 - at].path == paths::joined(
                    (m.pending->0).0,
                    entries[at].0,
                )
                &&& next.todo[m.todo.len() + entries.len() - 1 - at].depth == (m.pending->0).1 + 1
                &&& next.todo[m.todo.len() + entries.len() - 1 - at].kind == entries[at].1
                &&& next.visited == m.visited.push(canonical)
                &&& next.files == m.files
                &&& next.pending is None
                &&& next.failure == m.failure
            },
{
    let (path, depth) = m.pending->0;
    let next = WalkModel {
        visited: m.visited.push(canonical),
        todo: m.todo + downloader::below(path, depth, entries),
        pending: None,
        ..m
    };
    assert(m.listed(ListingModel::Found(canonical, entries)) == next.advanced());
    let place = m.todo.len() + entries.len() - 1 - at;
    assert(next.todo[place] == downloader::below(path, depth, entries)[entries.len() - 1 - at]);
}

/// A file that is noted is there with its size, and no other is lost.
pub proof fn noted_files_are_there(files: Seq<(Seq<u8>, u64)>, path: Seq<u8>, size: u64)
    ensures
        exists|i: int|
            0 <= i < downloader::with_file(files, path, size).len() && paths::same_path(
                (#[trigger] downloader::with_file(files, path, size)[i]).0,
                path,
            ) && downloader::with_file(files, path, size)[i].1 == size,
        forall|i: int|
            0 <= i < files.len() && !paths::same_path((#[trigger] files[i]).0, path)
                ==> downloader::with_file(files, path, size)[i] == files[i],
{
    positions_hold(files, path, 0);
    let noted = downloader::with_file(files, path, size);
    match downloader::file_position(files, path, 0) {
        Some(at) => {
            assert(noted[at] == (files[at].0, size));
        },
        None => {
            assert(noted[files.len() as int] == (path, size));
        },
    }
}

proof fn positions_hold(files: Seq<(Seq<u8>, u64)>, path: Seq<u8>, from: int)
    requires
        0 <= from <= files.len(),
    ensures
        downloader::file_position(files, path, from) matches Some(at) ==> 0 <= at < files.len()
            && paths::same_path(files[at].0, path),
    decreases files.len() - from,
{
    if from < files.len() && !paths::same_path(files[from].0, path) {
        positions_hold(files, path, from + 1);
    }
}

// ----------------------------------------------------------------------- paths

proof fn names_of_a_part(part: Seq<u8>, rest: Seq<u8>)
    requires
        forall|i: int| 0 <= i < part.len() ==> part[i] != 0x2f,
    ensures
        paths::names(part + seq![0x2fu8] + rest) == (if part.len() == 0 || part == seq![0x2eu8] {
            Seq::<Seq<u8>>::empty()
        } else {
            seq![part]
        }) + paths::names(rest),
{
    let path = part + seq![0x2fu8] + rest;
    size_of_a_part(part, rest);
    let size = part.len();
    assert(path.skip(size as int + 1) =~= rest);
    assert(path.take(size as int) =~= part);
    assert((size == 1 && path[0] == 0x2e) == (part == seq![0x2eu8])) by {
        if size == 1 && path[0] == 0x2e {
            assert(part[0] == path[0]);
            assert(part =~= seq![0x2eu8]);
        }
    }
}

proof fn size_of_a_part(part: Seq<u8>, rest: Seq<u8>)
    requires
        forall|i: int| 0 <= i < part.len() ==> part[i] != 0x2f,
    ensures
        paths::name_size(part + seq![0x2fu8] + rest) == part.len(),
    decreases part.len(),
{
    let path = part + seq![0x2fu8] + rest;
    if part.len() > 0 {
        assert(path[0] == part[0]);
        size_of_a_part(part.drop_first(), rest);
        assert(path.drop_first() =~= part.drop_first() + seq![0x2fu8] + rest);
    }
}

/// A part of a path up to a slash is one of its names, except for an empty one and a
/// single full stop.
pub proof fn parts_are_names(part: Seq<u8>, rest: Seq<u8>)
    requires
        forall|i: int| 0 <= i < part.len() ==> part[i] != 0x2f,
    ensures
        part.len() == 0 || part == seq![0x2eu8] ==> paths::names(part + seq![0x2fu8] + rest)
            == paths::names(rest),
        part.len() > 0 && part != seq![0x2eu8] ==> paths::names(part + seq![0x2fu8] + rest)
            == seq![part] + paths::names(rest),
{
    names_of_a_part(part, rest);
    assert(Seq::<Seq<u8>>::empty() + paths::names(rest) =~= paths::names(rest));
}

/// A path with one more slash, or a full stop of its own, in the middle is the same
/// path.
pub proof fn needless_parts_do_not_count(part: Seq<u8>, rest: Seq<u8>)
    requires
        part.len() > 0,
        part != seq![0x2eu8],
        forall|i: int| 0 <= i < part.len() ==> part[i] != 0x2f,
    ensures
        paths::same_path(
            part + seq![0x2fu8] + rest,
            part + seq![0x2fu8] + (seq![0x2fu8] + rest),
        ),
        paths::same_path(
            part + seq![0x2fu8] + rest,
            part + seq![0x2fu8] + (seq![0x2eu8, 0x2fu8] + rest),
        ),
{
    let none = Seq::<u8>::empty();
    let dot = seq![0x2eu8];
    names_of_a_part(part, rest);
    names_of_a_part(part, seq![0x2fu8] + rest);
    names_of_a_part(part, seq![0x2eu8, 0x2fu8] + rest);
    parts_are_names(none, rest);
    parts_are_names(dot, rest);
    assert(none + seq![0x2fu8] + rest =~= seq![0x2fu8] + rest);
    assert(dot + seq![0x2fu8] + rest =~= seq![0x2eu8, 0x2fu8] + rest);
    let plain = part + seq![0x2fu8] + rest;
    let twice = part + seq![0x2fu8] + (seq![0x2fu8] + rest);
    let dotted = part + seq![0x2fu8] + (seq![0x2eu8, 0x2fu8] + rest);
    assert(plain[0] == part[0] && twice[0] == part[0] && dotted[0] == part[0]);
    assert(part.len() == 1 && part[0] == 0x2e ==> part =~= seq![0x2eu8]);
    assert(part.len() > 1 ==> plain[1] == part[1] && twice[1] == part[1] && dotted[1] == part[1]);
}

/// Paths with other names are other paths.
pub proof fn other_names_are_other_paths(left: Seq<u8>, right: Seq<u8>, rest: Seq<u8>)
    requires
        left != right,
        left.len() > 0,
        right.len() > 0,
        left != seq![0x2eu8],
        right != seq![0x2eu8],
        forall|i: int| 0 <= i < left.len() ==> left[i] != 0x2f,
        forall|i: int| 0 <= i < right.len() ==> right[i] != 0x2f,
    ensures
        !paths::same_path(left + seq![0x2fu8] + rest, right + seq![0x2fu8] + rest),
{
    let a = left + seq![0x2fu8] + rest;
    let b = right + seq![0x2fu8] + rest;
    parts_are_names(left, rest);
    parts_are_names(right, rest);
    assert(a[0] == left[0] && b[0] == right[0]);
    assert(left.len() == 1 && left[0] == 0x2e ==> left =~= seq![0x2eu8]);
    assert(right.len() == 1 && right[0] == 0x2e ==> right =~= seq![0x2eu8]);
    assert(left.len() > 1 ==> a[1] == left[1]);
    assert(right.len() > 1 ==> b[1] == right[1]);
    assert(!paths::starts_with_dot(a));
    assert(!paths::starts_with_dot(b));
    assert(paths::components(a) =~= seq![left] + paths::names(rest));
    assert(paths::components(b) =~= seq![right] + paths::names(rest));
    assert(paths::components(a)[0] == left);
    assert(paths::components(b)[0] == right);
}

/// A name: neither the root nor one of the two that stand for a directory here or
/// above.
pub open spec fn is_proper_name(name: Seq<u8>) -> bool {
    name != seq![0x2fu8] && name != seq![0x2eu8] && name != seq![0x2eu8, 0x2eu8]
}

/// `left` stands before `right` by its bytes: at the first byte in which they differ
/// it has the smaller one, or it ends there.
pub open spec fn bytes_precede(left: Seq<u8>, right: Seq<u8>) -> bool {
    exists|k: int|
        {
            &&& 0 <= k <= left.len()
            &&& k < right.len()
            &&& #[trigger] left.take(k) == right.take(k)
            &&& k == left.len() || left[k] < right[k]
        }
}

proof fn same_fronts_decide_nothing(front: Seq<int>, left: Seq<int>, right: Seq<int>)
    ensures
        order::lex_order(front + left, front + right) == order::lex_order(left, right),
    decreases front.len(),
{
    if front.len() == 0 {
        assert(front + left =~= left);
        assert(front + right =~= right);
    } else {
        same_fronts_decide_nothing(front.drop_first(), left, right);
        assert((front + left).drop_first() =~= front.drop_first() + left);
        assert((front + right).drop_first() =~= front.drop_first() + right);
    }
}

proof fn lists_are_coded_in_turn(front: Seq<Seq<u8>>, back: Seq<Seq<u8>>)
    ensures
        paths::list_codes(front + back) == paths::list_codes(front) + paths::list_codes(back),
    decreases front.len(),
{
    if front.len() == 0 {
        assert(front + back =~= back);
        assert(paths::list_codes(front) =~= Seq::empty());
    } else {
        lists_are_coded_in_turn(front.drop_first(), back);
        assert((front + back).drop_first() =~= front.drop_first() + back);
        assert((front + back)[0] == front[0]);
    }
}

/// Paths are ordered by the first name in which they differ, byte by byte, and one
/// that holds another stands behind it.
pub proof fn first_names_decide(
    left: Seq<u8>,
    right: Seq<u8>,
    front: Seq<Seq<u8>>,
    one: Seq<u8>,
    other: Seq<u8>,
    left_rest: Seq<Seq<u8>>,
    right_rest: Seq<Seq<u8>>,
)
    requires
        paths::components(left) == front + seq![one] + left_rest,
        paths::components(right) == front + seq![other] + right_rest,
        is_proper_name(one),
        is_proper_name(other),
        bytes_precede(one, other),
    ensures
        paths::path_order(left, right) == Order::Before,
        paths::path_order(right, left) == Order::After,
{
    let k = choose|k: int|
        {
            &&& 0 <= k <= one.len()
            &&& k < other.len()
            &&& #[trigger] one.take(k) == other.take(k)
            &&& k == one.len() || one[k] < other[k]
        };
    let same = paths::list_codes(front) + seq![4int] + Seq::new(
        k as nat,
        |i: int| one[i] as int + 1,
    );
    let a = paths::list_codes(front + seq![one] + left_rest);
    let b = paths::list_codes(front + seq![other] + right_rest);
    lists_are_coded_in_turn(front + seq![one], left_rest);
    lists_are_coded_in_turn(front, seq![one]);
    lists_are_coded_in_turn(front + seq![other], right_rest);
    lists_are_coded_in_turn(front, seq![other]);
    assert(seq![one].drop_first() =~= Seq::empty());
    assert(seq![other].drop_first() =~= Seq::empty());
    assert(paths::list_codes(Seq::empty()) =~= Seq::empty());
    assert(paths::list_codes(seq![one]) =~= paths::component_codes(one));
    assert(paths::list_codes(seq![other]) =~= paths::component_codes(other));
    let a_back = a.skip(same.len() as int);
    let b_back = b.skip(same.len() as int);
    assert forall|i: int| 0 <= i < k implies one[i] == other[i] by {
        assert(one.take(k)[i] == other.take(k)[i]);
    }
    assert(a =~= same + a_back);
    assert(b =~= same + b_back);
    let base = paths::list_codes(front).len() as int;
    assert(a[base + 1 + k] == (if k == one.len() {
        0int
    } else {
        one[k] as int + 1
    }));
    assert(b[base + 1 + k] == other[k] as int + 1);
    assert(a_back[0] == a[base + 1 + k]);
    assert(b_back[0] == b[base + 1 + k]);
    same_fronts_decide_nothing(same, a_back, b_back);
    order::lex_order_flips(a, b);
}

/// How a component is ranked before its bytes are looked at: the root, a full stop,
/// two full stops, and names.
pub open spec fn component_rank(component: Seq<u8>) -> int {
    if component == seq![0x2fu8] {
        0
    } else if component == seq![0x2eu8] {
        1
    } else if component == seq![0x2eu8, 0x2eu8] {
        2
    } else {
        3
    }
}

/// Where two paths differ first in the kind of a component, the kind decides; and a
/// path stands before every path below it.
#[verifier::rlimit(40)]
pub proof fn kinds_of_components_decide(
    left: Seq<u8>,
    right: Seq<u8>,
    front: Seq<Seq<u8>>,
    one: Seq<u8>,
    other: Seq<u8>,
    left_rest: Seq<Seq<u8>>,
    right_rest: Seq<Seq<u8>>,
)
    requires
        paths::components(right) == front + seq![other] + right_rest,
    ensures
        paths::components(left) == front + seq![one] + left_rest && component_rank(one)
            < component_rank(other) ==> paths::path_order(left, right) == Order::Before
            && paths::path_order(right, left) == Order::After,
        paths::components(left) == front ==> paths::path_order(left, right) == Order::Before
            && paths::path_order(right, left) == Order::After,
{
    let same = paths::list_codes(front);
    let b = paths::list_codes(front + seq![other] + right_rest);
    lists_are_coded_in_turn(front + seq![other], right_rest);
    lists_are_coded_in_turn(front, seq![other]);
    assert(seq![other].drop_first() =~= Seq::empty());
    assert(paths::list_codes(Seq::empty()) =~= Seq::empty());
    assert(paths::list_codes(seq![other]) =~= paths::component_codes(other));
    let b_back = b.skip(same.len() as int);
    assert(b =~= same + b_back);
    assert(b_back[0] == paths::component_codes(other)[0]);
    if paths::components(left) == front + seq![one] + left_rest && component_rank(one)
        < component_rank(other) {
        let a = paths::list_codes(front + seq![one] + left_rest);
        lists_are_coded_in_turn(front + seq![one], left_rest);
        lists_are_coded_in_turn(front, seq![one]);
        assert(seq![one].drop_first() =~= Seq::empty());
        assert(paths::list_codes(seq![one]) =~= paths::component_codes(one));
        let a_back = a.skip(same.len() as int);
        assert(a =~= same + a_back);
        assert(a_back[0] == paths::component_codes(one)[0]);
        same_fronts_decide_nothing(same, a_back, b_back);
        order::lex_order_flips(a, b);
    }
    if paths::components(left) == front {
        let none = Seq::<int>::empty();
        assert(same + none =~= same);
        same_fronts_decide_nothing(same, none, b_back);
        order::lex_order_flips(same, b);
    }
}

/// New files are told by their paths: of two, the one whose path comes first stands
/// first.
pub proof fn new_files_stand_in_order(
    before: Seq<(Seq<u8>, u64)>,
    after: Seq<(Seq<u8>, u64)>,
    i: int,
    j: int,
)
    requires
        0 <= i < j < downloader::new_file_views(before, after).len(),
    ensures
        paths::path_order(
            downloader::new_file_views(before, after)[i].0,
            downloader::new_file_views(before, after)[j].0,
        ) != Order::After,
{
    let told = downloader::new_file_views(before, after);
    downloader::new_files_are_exact(before, after, told[i]);
    assert(!downloader::file_after()(told[i], told[j]));
}

// ---------------------------------------------------------------------- report

/// The report names every file on a line of its own, with its size, and says so
/// where there is none.
pub proof fn every_file_has_a_line(files: Seq<(Seq<u8>, u64)>, next: (Seq<u8>, u64))
    ensures
        download::report_text(Seq::empty()) == "No new files downloaded."@,
        download::report_text(files.push(next)) == (if files.len() == 0 {
            "\nDownloaded files:"@
        } else {
            download::report_text(files)
        }) + ("\n  "@ + crate::model::inert(paths::lossy_text(next.0)) + "  ("@
            + crate::size::size_text(
            next.1 as nat,
            seq!["B"@, "KB"@, "MB"@, "GB"@, "TB"@],
            1,
        ) + ")"@),
{
    assert(files.push(next).drop_last() =~= files);
    assert(files.push(next).last() == next);
    let shown = crate::model::inert(paths::lossy_text(next.0));
    let size = crate::size::size_text(next.1 as nat, seq!["B"@, "KB"@, "MB"@, "GB"@, "TB"@], 1);
    let line = "\n  "@ + shown + "  ("@ + size + ")"@;
    let front = if files.len() == 0 {
        Seq::empty()
    } else {
        download::report_lines(files)
    };
    assert(files.len() == 0 ==> download::report_lines(files) =~= Seq::empty());
    assert(download::report_lines(files.push(next)) =~= front + line);
    assert("\nDownloaded files:"@ + (front + line) =~= ("\nDownloaded files:"@ + front) + line);
    assert("\nDownloaded files:"@ + Seq::<char>::empty() =~= "\nDownloaded files:"@);
}

} // verus!
