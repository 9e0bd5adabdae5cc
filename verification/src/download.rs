//! A one-shot download: the command to run and the report of what it left.

use crate::downloader;
use crate::downloader::{ClientKind, DownloadedFile};
use crate::model;
use crate::model::without_marks;
use crate::paths;
use crate::paths::FilePath;
use crate::selection;
use crate::size;
use crate::size::size_string;
use crate::text;
use vstd::prelude::*;

verus! {

/// The units of [`human_size`].
pub open spec fn plain_units() -> Seq<Seq<char>> {
    seq!["B"@, "KB"@, "MB"@, "GB"@, "TB"@]
}

/// A size in units of 1024, with one decimal from the second unit on.
pub fn human_size(bytes: u64) -> (r: String)
    ensures
        r@ == size::size_text(bytes as nat, plain_units(), 1),
{
    let units = ["B", "KB", "MB", "GB", "TB"];
    proof {
        assert(size::str_views(units@) =~= plain_units());
    }
    size_string(bytes, &units, 1)
}

/// The command of a download.
#[derive(Debug, PartialEq, Eq)]
pub struct DownloadCommand {
    pub program: &'static str,
    pub arguments: Vec<FilePath>,
}

/// What is said where no client can be used.
pub open spec fn missing_client_text() -> Seq<char> {
    "No supported downloader found. Install aria2c."@
}

/// What is said where no client can be used.
pub fn missing_client_message() -> (r: String)
    ensures
        r@ == missing_client_text(),
{
    "No supported downloader found. Install aria2c.".to_string()
}

/// The arguments with which a magnet link is downloaded into a directory, which is
/// told as text.
pub open spec fn download_arguments(magnet: Seq<char>, output_dir: Seq<u8>) -> Seq<Seq<u8>> {
    seq![
        vstd::utf8::encode_utf8("--seed-time=0"@),
        vstd::utf8::encode_utf8("--dir"@),
        vstd::utf8::encode_utf8(paths::lossy_text(output_dir)),
        vstd::utf8::encode_utf8(magnet),
    ]
}

/// The command that downloads a magnet link, given the clients that were found.
/// Only `aria2c` stays in the foreground and stops seeding, so only it is used;
/// without it the error says what to install.
pub fn download(found: &Vec<ClientKind>, magnet: &str, output_dir: &FilePath) -> (r: Result<
    DownloadCommand,
    String,
>)
    ensures
        match r {
            Ok(command) => found@.contains(ClientKind::Aria2c) && command.program@ == "aria2c"@
                && paths::path_views(command.arguments@) == download_arguments(
                magnet@,
                output_dir@,
            ),
            Err(message) => !found@.contains(ClientKind::Aria2c) && message@
                == missing_client_text(),
        },
{
    let mut i: usize = 0;
    while i < found.len()
        invariant
            i <= found@.len(),
            forall|j: int| 0 <= j < i ==> found@[j] != ClientKind::Aria2c,
        decreases found@.len() - i,
    {
        if found[i] == ClientKind::Aria2c {
            let directory = output_dir.display();
            let arguments = vec![
                FilePath::new("--seed-time=0"),
                FilePath::new("--dir"),
                FilePath::new(directory.as_str()),
                FilePath::new(magnet),
            ];
            proof {
                assert(paths::path_views(arguments@) =~= download_arguments(magnet@, output_dir@));
            }
            return Ok(DownloadCommand { program: "aria2c", arguments });
        }
        i = i + 1;
    }
    Err(missing_client_message())
}

/// The error of a client that did not succeed.
pub fn exit_message(program: &str, status: &str) -> (r: String)
    ensures
        r@ == program@ + " exited with status "@ + status@,
{
    let mut out = program.to_string();
    out.append(" exited with status ");
    out.append(status);
    out
}

/// One line of the report for each file: its name without terminal controls and
/// bidirectional marks, and its size.
pub open spec fn report_lines(files: Seq<(Seq<u8>, u64)>) -> Seq<char>
    decreases files.len(),
{
    if files.len() == 0 {
        Seq::empty()
    } else {
        report_lines(files.drop_last()) + "\n  "@ + model::inert(
            paths::lossy_text(files.last().0),
        ) + "  ("@ + size::size_text(files.last().1 as nat, plain_units(), 1) + ")"@
    }
}

/// The report of the files that a download left.
pub open spec fn report_text(files: Seq<(Seq<u8>, u64)>) -> Seq<char> {
    if files.len() == 0 {
        "No new files downloaded."@
    } else {
        "\nDownloaded files:"@ + report_lines(files)
    }
}

/// The report of the files that a download left.
pub fn report(files: &Vec<DownloadedFile>) -> (r: String)
    ensures
        r@ == report_text(downloader::file_views(files@)),
{
    if files.len() == 0 {
        return "No new files downloaded.".to_string();
    }
    let ghost all = downloader::file_views(files@);
    let mut out = "\nDownloaded files:".to_string();
    let mut i: usize = 0;
    proof {
        assert(all.take(0) =~= Seq::empty());
        assert(out@ =~= "\nDownloaded files:"@ + report_lines(all.take(0)));
    }
    while i < files.len()
        invariant
            i <= files@.len(),
            all == downloader::file_views(files@),
            out@ == "\nDownloaded files:"@ + report_lines(all.take(i as int)),
        decreases files@.len() - i,
    {
        let ghost before = out@;
        proof {
            assert(all.take(i as int + 1).drop_last() =~= all.take(i as int));
            assert(all.take(i as int + 1).last() == files@[i as int]@);
        }
        out.append("\n  ");
        let shown = files[i].relative_path.display();
        let safe = without_marks(shown.as_str());
        out.append(safe.as_str());
        out.append("  (");
        let bytes = human_size(files[i].size_bytes);
        out.append(bytes.as_str());
        out.append(")");
        proof {
            assert(out@ =~= "\nDownloaded files:"@ + report_lines(all.take(i as int + 1)));
        }
        i = i + 1;
    }
    proof {
        assert(all.take(all.len() as int) =~= all);
    }
    out
}

// ----------------------------------------------------------------------- laws

/// Whether a text holds no terminal control but line breaks, and no bidirectional
/// mark.
pub open spec fn is_inert_but_for_lines(value: Seq<char>) -> bool {
    forall|i: int|
        0 <= i < value.len() ==> #[trigger] value[i] == '\n' || !text::is_control(value[i])
            && !text::is_bidi_mark(value[i])
}

proof fn lines_join(front: Seq<char>, back: Seq<char>)
    requires
        is_inert_but_for_lines(front),
        is_inert_but_for_lines(back),
    ensures
        is_inert_but_for_lines(front + back),
{
    let both = front + back;
    assert forall|i: int| 0 <= i < both.len() implies #[trigger] both[i] == '\n'
        || !text::is_control(both[i]) && !text::is_bidi_mark(both[i]) by {
        if i < front.len() {
            assert(both[i] == front[i]);
        } else {
            assert(both[i] == back[i - front.len()]);
        }
    }
}

proof fn report_lines_are_inert(files: Seq<(Seq<u8>, u64)>)
    ensures
        is_inert_but_for_lines(report_lines(files)),
    decreases files.len(),
{
    if files.len() > 0 {
        let before = report_lines(files.drop_last());
        let name = model::inert(paths::lossy_text(files.last().0));
        let bytes = size::size_text(files.last().1 as nat, plain_units(), 1);
        report_lines_are_inert(files.drop_last());
        model::inert_holds_no_mark(paths::lossy_text(files.last().0));
        reveal_strlit("B");
        reveal_strlit("KB");
        reveal_strlit("MB");
        reveal_strlit("GB");
        reveal_strlit("TB");
        selection::size_texts_are_inert(files.last().1 as nat, plain_units(), 1);
        reveal_strlit("\n  ");
        reveal_strlit("  (");
        reveal_strlit(")");
        let a = before + "\n  "@;
        lines_join(before, "\n  "@);
        let b = a + name;
        lines_join(a, name);
        let c = b + "  ("@;
        lines_join(b, "  ("@);
        let d = c + bytes;
        lines_join(c, bytes);
        lines_join(d, ")"@);
    }
}

/// Whatever the files of a download are called, the report of them holds no
/// terminal control but its line breaks, and no bidirectional mark.
pub proof fn reports_are_inert(files: Seq<(Seq<u8>, u64)>)
    ensures
        is_inert_but_for_lines(report_text(files)),
{
    reveal_strlit("No new files downloaded.");
    reveal_strlit("\nDownloaded files:");
    report_lines_are_inert(files);
    lines_join("\nDownloaded files:"@, report_lines(files));
}

} // verus!
