use pbtdl::config::DownloaderPreference;
use pbtdl::download;
use pbtdl::download_run::{DownloadAction, DownloadEvent, DownloadRun};
use pbtdl::downloader::{
    accept_output, build_arguments, check_output, ensure_supported, judge_client, new_files,
    ClientEnd, ClientKind, ClientProbe, DirectoryEntry, DownloadError, DownloadOutcome,
    DownloadedFile, EntryKind, Listing, LocalDownloader, OutputStep, Reaping, Walk,
    MAX_SNAPSHOT_DEPTH, MAX_SNAPSHOT_ENTRIES,
};
use pbtdl::model::MagnetUri;
use pbtdl::paths::FilePath;

const HASH: &str = "0123456789abcdef0123456789abcdef01234567";

fn magnet(suffix: &str) -> MagnetUri {
    MagnetUri::from_str(&format!("magnet:?xt=urn:btih:{HASH}&dn={suffix}")).expect("valid magnet")
}

fn path(value: &str) -> FilePath {
    FilePath::new(value)
}

/// What is known when exactly these files can be executed.
fn probe(downloader: &LocalDownloader, executable: &[&str]) -> ClientProbe {
    let marks = |kind: ClientKind| -> Vec<bool> {
        downloader
            .candidates(kind)
            .iter()
            .map(|file| executable.iter().any(|known| path(known) == *file))
            .collect()
    };
    ClientProbe {
        aria2c: marks(ClientKind::Aria2c),
        transmission_cli: marks(ClientKind::TransmissionCli),
        qbittorrent_nox: marks(ClientKind::QbittorrentNox),
    }
}

#[test]
fn automatic_detection_prefers_supported_aria2c() {
    let downloader =
        LocalDownloader::with_path_entries(DownloaderPreference::Auto, vec![path("/tmp/t")]);
    let known = probe(
        &downloader,
        &["/tmp/t/qbittorrent-nox", "/tmp/t/transmission-cli", "/tmp/t/aria2c"],
    );

    let selected = downloader.select_client(&known).expect("select client");

    assert_eq!(selected.kind, ClientKind::Aria2c);
}

#[test]
fn explicit_incompatible_clients_are_not_advertised_as_supported() {
    for (preference, expected) in [
        (
            DownloaderPreference::TransmissionCli,
            ClientKind::TransmissionCli,
        ),
        (
            DownloaderPreference::QbittorrentNox,
            ClientKind::QbittorrentNox,
        ),
    ] {
        let downloader = LocalDownloader::with_path_entries(preference, vec![path("/tmp/t")]);
        let known = probe(&downloader, &["/tmp/t/transmission-cli", "/tmp/t/qbittorrent-nox"]);
        assert!(matches!(
            downloader.select_client(&known),
            Err(DownloadError::UnsupportedClient { client, .. }) if client == expected
        ));
    }
}

#[test]
fn missing_clients_and_missing_explicit_choice_are_distinct() {
    let auto = LocalDownloader::with_path_entries(DownloaderPreference::Auto, Vec::new());
    let explicit = LocalDownloader::with_path_entries(DownloaderPreference::Aria2c, Vec::new());
    let none = probe(&auto, &[]);

    assert!(matches!(
        auto.select_client(&none),
        Err(DownloadError::MissingClient)
    ));
    assert!(matches!(
        explicit.select_client(&none),
        Err(DownloadError::ConfiguredClientMissing(ClientKind::Aria2c))
    ));
}

fn file(name: &str, size: u64) -> DirectoryEntry {
    DirectoryEntry {
        name: path(name),
        kind: EntryKind::File(Some(size)),
    }
}

/// A file system with one output directory, and what a client would do in it.
struct World {
    exists: bool,
    is_directory: bool,
    before: Vec<(&'static str, u64)>,
    after: Vec<(&'static str, u64)>,
    executable: Vec<&'static str>,
    exit: Option<ClientEnd>,
}

/// Runs a download; tells what was launched.
fn drive(
    downloader: LocalDownloader,
    magnet: MagnetUri,
    output: &str,
    world: World,
) -> (Result<DownloadOutcome, DownloadError>, Option<(FilePath, Vec<FilePath>)>) {
    let mut world = world;
    let mut run: DownloadRun = downloader.download_with_cancel(magnet, path(output));
    let mut launched = None;
    loop {
        match run.action() {
            DownloadAction::Inspect(_) => run.handle(DownloadEvent::Inspected {
                exists: world.exists,
                is_directory: world.is_directory,
            }),
            DownloadAction::Create(_) => run.handle(DownloadEvent::Created(Ok(()))),
            DownloadAction::Resolve(wanted) => run.handle(DownloadEvent::Resolved(Ok(wanted))),
            DownloadAction::Probe => {
                let known = probe(run.downloader(), &world.executable);
                run.handle(DownloadEvent::Probed(known));
            }
            DownloadAction::List { output, relative } => {
                assert!(relative.is_empty());
                let entries = if launched.is_none() { &world.before } else { &world.after };
                run.handle(DownloadEvent::Listed(Listing::Found {
                    canonical: output,
                    entries: entries.iter().map(|(name, size)| file(name, *size)).collect(),
                }));
            }
            DownloadAction::Launch { executable, arguments } => {
                assert!(launched.is_none());
                launched = Some((executable, arguments));
                run.handle(DownloadEvent::Ended(world.exit.take().expect("one launch")));
            }
            DownloadAction::Finished => break,
        }
    }
    (run.finish().expect("over"), launched)
}

fn success() -> Option<ClientEnd> {
    Some(ClientEnd::Exited { success: true, status: "exit status: 0".to_string() })
}

#[test]
fn invokes_aria2c_with_exact_arguments_and_reports_new_files() {
    let downloader =
        LocalDownloader::with_path_entries(DownloaderPreference::Auto, vec![path("/t/bin")]);

    let (outcome, launched) = drive(
        downloader,
        magnet("legal-test"),
        "/t/output",
        World {
            exists: false,
            is_directory: false,
            before: vec![],
            after: vec![("completed.bin", 4)],
            executable: vec!["/t/bin/aria2c"],
            exit: success(),
        },
    );
    let outcome = outcome.expect("fake download");

    let (executable, arguments) = launched.expect("launched");
    assert_eq!(executable, path("/t/bin/aria2c"));
    assert_eq!(
        arguments,
        [
            path("--seed-time=0"),
            path("--dir"),
            path("/t/output"),
            path(magnet("legal-test").as_str()),
        ]
    );
    assert_eq!(outcome.client, ClientKind::Aria2c);
    assert_eq!(outcome.output_directory, path("/t/output"));
    assert_eq!(
        outcome.new_files,
        [DownloadedFile {
            relative_path: path("completed.bin"),
            size_bytes: 4,
        }]
    );
}

#[test]
fn magnet_shell_metacharacters_remain_one_inert_argument() {
    let downloader =
        LocalDownloader::with_path_entries(DownloaderPreference::Aria2c, vec![path("/t/bin")]);
    let hostile = magnet("legal;touch${IFS}/t/shell-was-used");

    let (outcome, launched) = drive(
        downloader,
        hostile.clone(),
        "/t/output",
        World {
            exists: true,
            is_directory: true,
            before: vec![],
            after: vec![],
            executable: vec!["/t/bin/aria2c"],
            exit: success(),
        },
    );
    outcome.expect("safe fake invocation");

    let (_, arguments) = launched.expect("launched");
    assert_eq!(arguments.last(), Some(&path(hostile.as_str())));
    assert_eq!(arguments.len(), 4);
}

#[test]
fn invalid_output_path_and_nonzero_exit_are_propagated() {
    let make = || {
        LocalDownloader::with_path_entries(DownloaderPreference::Aria2c, vec![path("/t/bin")])
    };
    let world = |exists: bool, is_directory: bool| World {
        exists,
        is_directory,
        before: vec![],
        after: vec![],
        executable: vec!["/t/bin/aria2c"],
        exit: Some(ClientEnd::Exited { success: false, status: "exit status: 17".to_string() }),
    };

    let (outcome, launched) =
        drive(make(), magnet("legal"), "/t/not-a-directory", world(true, false));
    assert!(matches!(outcome, Err(DownloadError::InvalidOutput(_))));
    assert!(launched.is_none());
    let (outcome, _) = drive(make(), magnet("legal"), "/t/output", world(false, false));
    assert!(matches!(outcome, Err(DownloadError::NonzeroExit { .. })));
}

#[test]
fn rejects_filesystem_root_and_bounded_snapshot_overflow() {
    assert!(matches!(
        accept_output(path("/")),
        Err(DownloadError::UnsafeOutput(_))
    ));

    let mut walk = Walk::new();
    while let Some(relative) = walk.request() {
        let canonical = path("/t").join(relative);
        walk.supply(Listing::Found {
            canonical,
            entries: vec![DirectoryEntry { name: path("nested"), kind: EntryKind::Directory }],
        });
    }
    assert!(matches!(
        walk.finish(),
        Err(DownloadError::OutputInspection(_))
    ));
    assert_eq!(MAX_SNAPSHOT_DEPTH, 32);
}

#[test]
fn snapshots_do_not_follow_directory_symlinks() {
    let mut walk = Walk::new();
    assert!(walk.request().expect("root").is_empty());
    walk.supply(Listing::Found {
        canonical: path("/t"),
        entries: vec![DirectoryEntry { name: path("linked"), kind: EntryKind::Symlink }],
    });
    assert!(walk.request().is_none());
    assert!(walk.finish().expect("snapshot").is_empty());
}

#[test]
fn cancellation_kills_and_reaps_the_owned_client() {
    let downloader =
        LocalDownloader::with_path_entries(DownloaderPreference::Aria2c, vec![path("/t/bin")]);
    let (result, launched) = drive(
        downloader,
        magnet("legal"),
        "/t/output",
        World {
            exists: true,
            is_directory: true,
            before: vec![],
            after: vec![],
            executable: vec!["/t/bin/aria2c"],
            exit: Some(ClientEnd::Cancelled(Reaping::Reaped)),
        },
    );
    assert!(launched.is_some());
    assert!(matches!(result, Err(DownloadError::Interrupted)));
}

#[test]
fn walks_go_through_directories() {
    let mut walk = Walk::new();
    let mut asked = Vec::new();
    while let Some(relative) = walk.request() {
        let shown = relative.display();
        let canonical = path("/t").join(relative);
        let entries = match shown.as_str() {
            "" => vec![
                file("a", 1),
                DirectoryEntry { name: path("d"), kind: EntryKind::Directory },
                DirectoryEntry { name: path("socket"), kind: EntryKind::Other },
                DirectoryEntry { name: path("unread"), kind: EntryKind::File(None) },
            ],
            _ => vec![file("b", 2)],
        };
        asked.push(shown);
        walk.supply(Listing::Found { canonical, entries });
    }
    assert_eq!(asked, ["", "d"]);
    let mut files: Vec<(String, u64)> = walk
        .finish()
        .expect("files")
        .iter()
        .map(|found| (found.relative_path.display(), found.size_bytes))
        .collect();
    files.sort();
    assert_eq!(files, [("a".to_string(), 1), ("d/b".to_string(), 2)]);
}

#[test]
fn walks_give_up_on_too_many_files() {
    let mut walk = Walk::new();
    let entries = (0..=MAX_SNAPSHOT_ENTRIES).map(|index| file(&format!("f{index}"), 1)).collect();
    walk.supply(Listing::Found { canonical: path("/t"), entries });
    assert!(walk.request().is_none());
    assert!(matches!(walk.finish(), Err(DownloadError::OutputInspection(_))));
}

fn downloaded(name: &str, size: u64) -> DownloadedFile {
    DownloadedFile { relative_path: path(name), size_bytes: size }
}

#[test]
fn new_files_are_those_that_were_not_there() {
    let before = vec![downloaded("old", 1), downloaded("grown", 1)];
    let after = vec![
        downloaded("z", 3),
        downloaded("old", 1),
        downloaded("grown", 2),
        downloaded("a", 4),
    ];
    assert_eq!(new_files(&before, &after), [downloaded("a", 4), downloaded("z", 3)]);
    assert!(new_files(&after, &before).is_empty());
}

#[test]
fn each_end_of_a_client_has_its_outcome() {
    let kind = ClientKind::Aria2c;
    assert_eq!(
        judge_client(kind, ClientEnd::Exited { success: true, status: String::new() }),
        Ok(())
    );
    assert!(matches!(
        judge_client(kind, ClientEnd::SpawnFailed("m".to_string())),
        Err(DownloadError::Spawn { .. })
    ));
    assert!(matches!(
        judge_client(kind, ClientEnd::WaitFailed("m".to_string())),
        Err(DownloadError::Spawn { .. })
    ));
    assert!(judge_client(kind, ClientEnd::Cancelled(Reaping::KillFailed("m".to_string()))).is_err());
    assert!(judge_client(kind, ClientEnd::Cancelled(Reaping::TimedOut)).is_err());
    assert!(judge_client(kind, ClientEnd::Cancelled(Reaping::WaitFailed("m".to_string()))).is_err());
}

#[test]
fn only_aria2c_keeps_the_contract() {
    assert_eq!(ensure_supported(ClientKind::Aria2c), Ok(()));
    assert_eq!(ClientKind::Aria2c.contract_status(), None);
    for kind in [ClientKind::TransmissionCli, ClientKind::QbittorrentNox] {
        assert!(matches!(
            ensure_supported(kind),
            Err(DownloadError::UnsupportedClient { .. })
        ));
        assert!(build_arguments(kind, &magnet("x"), &path("/t")).is_err());
        assert!(kind.contract_status().is_some());
    }
    assert_eq!(ClientKind::QbittorrentNox.executable_name(), "qbittorrent-nox");
}

#[test]
fn outputs_are_inspected() {
    assert_eq!(check_output(&path("/t"), true, true), Ok(OutputStep::Resolve));
    assert_eq!(check_output(&path("/t"), false, false), Ok(OutputStep::Create));
    assert!(check_output(&path("/t"), true, false).is_err());
    assert_eq!(accept_output(path("/t")), Ok(path("/t")));
}

#[test]
fn failures_outside_end_a_download() {
    let make = || {
        LocalDownloader::with_path_entries(DownloaderPreference::Aria2c, vec![path("/t/bin")])
            .download_with_cancel(magnet("x"), path("/t/output"))
    };
    let mut run = make();
    run.handle(DownloadEvent::Inspected { exists: false, is_directory: false });
    run.handle(DownloadEvent::Created(Err("denied".to_string())));
    assert!(matches!(
        run.finish().expect("over"),
        Err(DownloadError::OutputPreparation { .. })
    ));
    let mut run = make();
    run.handle(DownloadEvent::Inspected { exists: true, is_directory: true });
    run.handle(DownloadEvent::Resolved(Err("gone".to_string())));
    assert!(matches!(
        run.finish().expect("over"),
        Err(DownloadError::OutputPreparation { .. })
    ));
    let mut run = make();
    run.handle(DownloadEvent::Inspected { exists: true, is_directory: true });
    run.handle(DownloadEvent::Resolved(Ok(path("/"))));
    assert!(matches!(run.finish().expect("over"), Err(DownloadError::UnsafeOutput(_))));
}

#[test]
fn download_errors_are_told() {
    assert!(DownloadError::MissingClient.message().contains("aria2c"));
    assert!(DownloadError::ConfiguredClientMissing(ClientKind::Aria2c)
        .message()
        .contains("aria2c"));
    assert!(DownloadError::InvalidOutput(path("/x")).message().contains("/x"));
    assert!(DownloadError::UnsafeOutput(path("/")).message().contains('/'));
    assert!(DownloadError::OutputPreparation { path: path("/x"), message: "m".to_string() }
        .message()
        .contains("/x"));
    assert!(DownloadError::Spawn { client: ClientKind::Aria2c, message: "m".to_string() }
        .message()
        .contains('m'));
    assert!(DownloadError::NonzeroExit {
        client: ClientKind::Aria2c,
        status: "exit status: 17".to_string()
    }
    .message()
    .contains("17"));
    assert!(!DownloadError::Interrupted.message().is_empty());
    assert!(DownloadError::OutputInspection("why").message().contains("why"));
}

#[test]
fn commands_and_reports() {
    assert_eq!(
        download::download(&vec![ClientKind::TransmissionCli], "m", &path("/o")),
        Err("No supported downloader found. Install aria2c.".to_string())
    );
    let odd = download::download(
        &vec![ClientKind::Aria2c],
        "m",
        &FilePath::from_bytes(vec![b'/', b'o', 0xff]),
    )
    .expect("command");
    assert_eq!(odd.arguments[2].as_bytes(), "/o\u{fffd}".as_bytes());
    let command = download::download(
        &vec![ClientKind::TransmissionCli, ClientKind::Aria2c],
        "magnet:?x",
        &path("/o"),
    )
    .expect("command");
    assert_eq!(command.program, "aria2c");
    assert_eq!(
        command.arguments,
        [path("--seed-time=0"), path("--dir"), path("/o"), path("magnet:?x")]
    );
    assert_eq!(download::human_size(512), "512 B");
    assert_eq!(download::human_size(1_536), "1.5 KB");
    assert_eq!(download::report(&vec![]), "No new files downloaded.");
    assert_eq!(
        download::report(&vec![downloaded("a", 2_048)]),
        "\nDownloaded files:\n  a  (2.0 KB)"
    );
    assert_eq!(
        download::report(&vec![downloaded("a\u{1b}[31m\nb\u{202e}c", 1)]),
        "\nDownloaded files:\n  a[31mbc  (1 B)"
    );
    assert_eq!(
        download::exit_message("aria2c", "exit status: 1"),
        "aria2c exited with status exit status: 1"
    );
}
