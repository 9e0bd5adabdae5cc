use pbtdl::model::{MagnetUri, TorrentResult};
use pbtdl::selection::{
    format_result, human_size, truncate_with_ellipsis, PromptAnswer, SelectionError,
    TerminalChooser,
};

fn result() -> TorrentResult {
    TorrentResult {
        name: "Ubuntu 🐧 résumé image".to_string(),
        magnet: MagnetUri::from_str("magnet:?xt=urn:btih:0123456789abcdef0123456789abcdef01234567")
            .expect("magnet"),
        seeders: Some(42),
        leechers: None,
        size_bytes: Some(1_610_612_736),
        category: Some("Applications".to_string()),
        source_host: "proxy.example".to_string(),
    }
}

#[test]
fn formats_all_available_and_unknown_fields() {
    let formatted = format_result(&result(), 14);

    assert!(formatted.contains("Ubuntu 🐧 résu…"));
    assert!(formatted.contains("seeders 42"));
    assert!(formatted.contains("leechers ?"));
    assert!(formatted.contains("Applications"));
    assert!(formatted.contains("proxy.example"));
    assert!(formatted.contains("1.50 GiB"));
}

#[test]
fn unicode_truncation_is_safe_at_small_limits() {
    assert_eq!(truncate_with_ellipsis("🦀Rust", 3), "🦀R…");
    assert_eq!(truncate_with_ellipsis("🦀", 1), "🦀");
    assert_eq!(truncate_with_ellipsis("🦀Rust", 1), "…");
    assert_eq!(truncate_with_ellipsis("🦀Rust", 0), "");
}

#[test]
fn formats_human_sizes() {
    assert_eq!(human_size(None), "unknown");
    assert_eq!(human_size(Some(512)), "512 B");
    assert_eq!(human_size(Some(1_048_576)), "1.00 MiB");
}

#[test]
fn automatic_selection_chooses_the_first_ranked_result() {
    let chooser = TerminalChooser::new(80);
    assert_eq!(
        chooser
            .select(&vec![result()], true, PromptAnswer::Failed)
            .expect("automatic"),
        0
    );
}

#[test]
fn formatting_does_not_emit_page_supplied_terminal_controls() {
    let mut hostile = result();
    hostile.name = "normal\u{1b}[2J title".to_string();
    hostile.category = Some("Apps\u{202e}evil".to_string());

    let formatted = format_result(&hostile, 80);

    assert!(!formatted.contains('\u{1b}'));
    assert!(!formatted.contains('\u{202e}'));
}

#[test]
fn each_answer_has_its_outcome() {
    let chooser = TerminalChooser::new(80);
    let results = vec![result(), result()];
    assert_eq!(chooser.select(&results, false, PromptAnswer::Picked(1)), Ok(1));
    assert_eq!(
        chooser.select(&results, false, PromptAnswer::Cancelled),
        Err(SelectionError::Cancelled)
    );
    assert_eq!(
        chooser.select(&results, false, PromptAnswer::Failed),
        Err(SelectionError::PromptFailed)
    );
    assert_eq!(
        chooser.select(&Vec::new(), true, PromptAnswer::Picked(0)),
        Err(SelectionError::NoResults)
    );
    assert!(chooser.asks(&results, false));
    assert!(!chooser.asks(&results, true));
    assert!(!chooser.asks(&Vec::new(), false));
}

#[test]
fn there_is_one_line_for_each_result() {
    let chooser = TerminalChooser::new(14);
    let lines = chooser.items(&vec![result(), result()]);
    assert_eq!(lines.len(), 2);
    assert_eq!(lines[0], format_result(&result(), 14));
}

#[test]
fn missing_fields_are_told() {
    let mut bare = result();
    bare.seeders = None;
    bare.size_bytes = None;
    bare.category = None;
    let formatted = format_result(&bare, 80);
    assert!(formatted.contains("seeders ?"));
    assert!(formatted.contains("unknown"));
}

fn by_float(bytes: u64) -> String {
    let units = ["B", "KiB", "MiB", "GiB", "TiB", "PiB"];
    let mut value = bytes as f64;
    let mut unit = 0;
    while value >= 1024.0 && unit + 1 < units.len() {
        value /= 1024.0;
        unit += 1;
    }
    if unit == 0 {
        format!("{bytes} B")
    } else {
        format!("{value:.2} {}", units[unit])
    }
}

#[test]
fn sizes_agree_with_floating_point_formatting() {
    let mut samples = vec![
        0,
        1,
        1023,
        1024,
        1025,
        1029,
        1_049,
        1_284,
        1_048_575,
        1_048_576,
        5_368_709,
        1_073_741_823,
        1_099_511_627_775,
        (1 << 53) - 1,
        1 << 53,
        (1 << 53) + 1,
        (1 << 60) + 1,
        u64::MAX,
        u64::MAX - 1,
    ];
    // Values that lie half-way between two hundredths of a unit.
    for step in 0..200 {
        samples.push(1024 + step * 128);
        samples.push((1 << 20) + step * (1 << 17));
        samples.push((1 << 30) + step * (1 << 27));
        samples.push(step * 7_919 * 7_907 * 104_729);
    }
    for bytes in samples {
        assert_eq!(human_size(Some(bytes)), by_float(bytes), "{bytes}");
    }
}
