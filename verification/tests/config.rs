use pbtdl::cli::Cli;
use pbtdl::config::{
    check_directory, judge_creation, line_number, load_or_create, validate_entry_url, AppConfig,
    BaseVariable, BrowserDocument, ConfigDocument, ConfigEnvironment, ConfigError, ConfigPaths,
    DiscoveryDocument, DownloaderDocument, DownloaderPreference, FileContents, FileCreation,
    LoadFailure, Positive, SearchDocument, DEFAULT_CONFIG_TEMPLATE,
};
use pbtdl::order::Order;
use pbtdl::paths::FilePath;
use pbtdl::weburl::Url;

fn path(value: &str) -> FilePath {
    FilePath::new(value)
}

fn isolated_paths() -> ConfigPaths {
    ConfigPaths {
        config_file: path("/t/config/pbtdl/pbtdl.toml"),
        cache_dir: path("/t/cache/pbtdl"),
    }
}

fn document(schema_version: u32) -> ConfigDocument {
    ConfigDocument {
        schema_version,
        discovery: None,
        browser: None,
        search: None,
        downloader: None,
    }
}

fn cli(results: Option<usize>, output: Option<&str>) -> Cli {
    Cli {
        query: "query".to_string(),
        output: output.map(path),
        results: results.map(|count| Positive::new(count).expect("nonzero")),
        auto: false,
        dry_run: false,
        headful: false,
        client: None,
        config: None,
    }
}

fn search_document(result_limit: usize) -> Option<SearchDocument> {
    Some(SearchDocument {
        result_limit: Positive::new(result_limit),
        max_title_characters: None,
    })
}

fn discovery_document() -> DiscoveryDocument {
    DiscoveryDocument {
        source_pages: None,
        seed_candidates: None,
        max_source_pages: None,
        max_candidates: None,
        cache_ttl_seconds: None,
    }
}

fn browser_document() -> BrowserDocument {
    BrowserDocument {
        executable: None,
        headless: None,
        navigation_timeout_seconds: None,
        selector_timeout_seconds: None,
        overall_timeout_seconds: None,
    }
}

/// The template as a parsed file.
fn template_document() -> ConfigDocument {
    let template: toml::Table = DEFAULT_CONFIG_TEMPLATE.parse().expect("template parses");
    let value = |table: &str, key: &str| template[table][key].clone();
    let number = |table: &str, key: &str| {
        u64::try_from(value(table, key).as_integer().expect("integer")).expect("not negative")
    };
    let count = |table: &str, key: &str| {
        Positive::new(usize::try_from(number(table, key)).expect("small"))
    };
    let flag = |table: &str, key: &str| value(table, key).as_bool();
    let pages = |key: &str| -> Vec<Url> {
        let list = value("discovery", key);
        list.as_array()
            .expect("list")
            .iter()
            .map(|page| Url::parse(page.as_str().expect("text")).expect("URL"))
            .collect()
    };
    assert_eq!(template.len(), 5);
    assert_eq!(template["browser"].get("executable"), None);
    ConfigDocument {
        schema_version: u32::try_from(template["schema_version"].as_integer().expect("version"))
            .expect("small"),
        discovery: Some(DiscoveryDocument {
            source_pages: Some(pages("source_pages")),
            seed_candidates: Some(pages("seed_candidates")),
            max_source_pages: count("discovery", "max_source_pages"),
            max_candidates: count("discovery", "max_candidates"),
            cache_ttl_seconds: Some(number("discovery", "cache_ttl_seconds")),
        }),
        browser: Some(BrowserDocument {
            executable: None,
            headless: flag("browser", "headless"),
            navigation_timeout_seconds: Some(number("browser", "navigation_timeout_seconds")),
            selector_timeout_seconds: Some(number("browser", "selector_timeout_seconds")),
            overall_timeout_seconds: Some(number("browser", "overall_timeout_seconds")),
        }),
        search: Some(SearchDocument {
            result_limit: count("search", "result_limit"),
            max_title_characters: count("search", "max_title_characters"),
        }),
        downloader: Some(DownloaderDocument {
            client: match value("downloader", "client").as_str() {
                Some("auto") => Some(DownloaderPreference::Auto),
                _ => None,
            },
            output_directory: value("downloader", "output_directory").as_str().map(path),
            seed_after_completion: flag("downloader", "seed_after_completion"),
        }),
    }
}

#[test]
fn the_template_spells_out_the_defaults() {
    let template = template_document();
    let defaults = AppConfig::default();
    assert_eq!(template.schema_version, 1);
    let discovery = template.discovery.expect("discovery");
    assert_eq!(discovery.source_pages, Some(defaults.discovery.source_pages));
    assert_eq!(discovery.seed_candidates, Some(defaults.discovery.seed_candidates));
    assert_eq!(discovery.max_source_pages, Some(defaults.discovery.max_source_pages));
    assert_eq!(discovery.max_candidates, Some(defaults.discovery.max_candidates));
    assert_eq!(discovery.cache_ttl_seconds, Some(defaults.discovery.cache_ttl_seconds));
    let browser = template.browser.expect("browser");
    assert_eq!(defaults.browser.executable, None);
    assert_eq!(browser.headless, Some(defaults.browser.headless));
    assert_eq!(
        browser.navigation_timeout_seconds,
        Some(defaults.browser.navigation_timeout_seconds)
    );
    assert_eq!(
        browser.selector_timeout_seconds,
        Some(defaults.browser.selector_timeout_seconds)
    );
    assert_eq!(
        browser.overall_timeout_seconds,
        Some(defaults.browser.overall_timeout_seconds)
    );
    let search = template.search.expect("search");
    assert_eq!(search.result_limit, Some(defaults.search.result_limit));
    assert_eq!(search.max_title_characters, Some(defaults.search.max_title_characters));
    let downloader = template.downloader.expect("downloader");
    assert_eq!(downloader.client, Some(defaults.downloader.client));
    assert_eq!(downloader.output_directory, Some(defaults.downloader.output_directory));
    assert_eq!(
        downloader.seed_after_completion,
        Some(defaults.downloader.seed_after_completion)
    );
}

#[test]
fn missing_configuration_creates_a_commented_usable_template() {
    let loaded = load_or_create(
        isolated_paths(),
        FileCreation::Opened { written: true, synced: true },
        FileContents::Parsed(template_document()),
    )
    .expect("create and load defaults");

    assert!(loaded.created);
    assert_eq!(loaded.paths, isolated_paths());
    assert_eq!(loaded.config, AppConfig::default());
    assert!(DEFAULT_CONFIG_TEMPLATE.contains("# Human-facing HTML pages"));
    assert!(DEFAULT_CONFIG_TEMPLATE.contains("schema_version = 1"));
}

#[test]
fn existing_configuration_is_loaded_without_being_overwritten() {
    let mut parsed = document(1);
    parsed.search = search_document(3);

    let loaded = load_or_create(isolated_paths(), FileCreation::Exists, FileContents::Parsed(parsed))
        .expect("load existing");

    assert!(!loaded.created);
    assert_eq!(loaded.config.search.result_limit.get(), 3);
}

#[test]
fn malformed_configuration_reports_path_and_preserves_bytes() {
    let original = b"schema_version = [definitely not TOML";
    let line = line_number(original, 17);

    let error = load_or_create(isolated_paths(), FileCreation::Exists, FileContents::Malformed(line))
        .expect_err("malformed TOML must fail");

    let message = error.message(&isolated_paths().config_file);
    assert!(message.contains(&isolated_paths().config_file.display()));
    assert!(message.contains("left unchanged"));
    assert!(message.contains("near line 1"));
}

#[test]
fn malformed_configuration_does_not_echo_secret_values() {
    let secret = "do-not-print-this-token";
    let original = format!("schema_version = 1\nsecret = \"{secret}\" trailing");
    let line = line_number(original.as_bytes(), original.len() - 3);

    let error = load_or_create(isolated_paths(), FileCreation::Exists, FileContents::Malformed(line))
        .expect_err("malformed TOML must fail");

    let message = error.message(&isolated_paths().config_file);
    assert!(!message.contains(secret));
    assert!(message.contains("near line 2"));
}

#[test]
fn unsupported_schema_reports_actionable_error_and_preserves_file() {
    let error = load_or_create(
        isolated_paths(),
        FileCreation::Exists,
        FileContents::Parsed(document(99)),
    )
    .expect_err("new schema must fail");

    assert!(error
        .message(&isolated_paths().config_file)
        .contains("unsupported configuration schema version 99"));
}

#[test]
fn rejects_configuration_and_cli_values_above_hard_caps() {
    let mut parsed = document(1);
    parsed.discovery = Some(DiscoveryDocument {
        max_candidates: Positive::new(65),
        ..discovery_document()
    });
    assert!(load_or_create(isolated_paths(), FileCreation::Exists, FileContents::Parsed(parsed))
        .is_err());

    let mut config = AppConfig::default();
    assert!(config.apply_cli(&cli(Some(501), None)).is_err());
}

#[test]
fn resolves_xdg_and_home_fallback_paths_without_process_environment_changes() {
    let xdg = ConfigEnvironment::new(
        Some(path("/t/xdg-config")),
        Some(path("/t/xdg-cache")),
        None,
    );
    let xdg_paths = ConfigPaths::resolve(&None, &xdg, &None).expect("resolve XDG paths");
    assert_eq!(xdg_paths.config_file, path("/t/xdg-config/pbtdl/pbtdl.toml"));
    assert_eq!(xdg_paths.cache_dir, path("/t/xdg-cache/pbtdl"));

    let fallback = ConfigEnvironment::new(None, None, Some(path("/t")));
    let fallback_paths =
        ConfigPaths::resolve(&None, &fallback, &None).expect("resolve HOME fallbacks");
    assert_eq!(fallback_paths.config_file, path("/t/.config/pbtdl/pbtdl.toml"));
    assert_eq!(fallback_paths.cache_dir, path("/t/.cache/pbtdl"));
}

#[test]
fn explicit_config_path_and_cli_values_override_without_rewriting_file() {
    let environment =
        ConfigEnvironment::new(None, Some(path("/t/cache")), Some(path("/t")));
    let explicit = Some(path("/t/custom/settings.toml"));
    let paths = ConfigPaths::resolve(&explicit, &environment, &None).expect("resolve paths");
    assert_eq!(paths.config_file, path("/t/custom/settings.toml"));
    let mut loaded = load_or_create(
        paths,
        FileCreation::Opened { written: true, synced: true },
        FileContents::Parsed(document(1)),
    )
    .expect("load defaults");

    loaded
        .config
        .apply_cli(&cli(Some(7), Some("/tmp/elsewhere")))
        .expect("valid CLI overrides");

    assert_eq!(loaded.config.search.result_limit.get(), 7);
    assert_eq!(loaded.config.downloader.output_directory, path("/tmp/elsewhere"));
}

#[test]
fn rejects_relative_xdg_paths() {
    let environment = ConfigEnvironment::new(
        Some(path("relative")),
        Some(path("relative")),
        Some(path("/tmp/home")),
    );

    let error =
        ConfigPaths::resolve(&None, &environment, &None).expect_err("relative XDG must fail");

    assert!(error.message().contains("XDG_CONFIG_HOME"));
}

#[test]
fn empty_variables_count_as_unset() {
    let environment =
        ConfigEnvironment::new(Some(path("")), Some(path("")), Some(path("/home/u")));
    let paths = ConfigPaths::resolve(&None, &environment, &None).expect("paths");
    assert_eq!(paths.config_file, path("/home/u/.config/pbtdl/pbtdl.toml"));
    let bare = ConfigEnvironment::new(None, None, None);
    assert_eq!(
        ConfigPaths::resolve(&None, &bare, &None),
        Err(ConfigError::HomeUnset(BaseVariable::ConfigHome))
    );
    let relative = ConfigEnvironment::new(None, None, Some(path("home")));
    assert_eq!(
        ConfigPaths::resolve(&None, &relative, &None),
        Err(ConfigError::RelativeHome)
    );
}

#[test]
fn relative_overrides_are_taken_from_the_current_directory() {
    let environment = ConfigEnvironment::new(None, None, Some(path("/home/u")));
    let relative = Some(path("my.toml"));
    let paths =
        ConfigPaths::resolve(&relative, &environment, &Some(path("/work"))).expect("paths");
    assert_eq!(paths.config_file, path("/work/my.toml"));
    assert_eq!(
        ConfigPaths::resolve(&relative, &environment, &None),
        Err(ConfigError::NoCurrentDirectory)
    );
}

fn fault(change: impl Fn(&mut AppConfig)) -> Option<ConfigError> {
    let mut config = AppConfig::default();
    change(&mut config);
    config.validate().err()
}

#[test]
fn each_fault_of_settings_is_found() {
    assert_eq!(fault(|_| {}), None);
    assert_eq!(
        fault(|config| {
            config.discovery.source_pages = vec![];
            config.discovery.seed_candidates = vec![];
        }),
        Some(ConfigError::NoDiscoveryEntry)
    );
    assert_eq!(
        fault(|config| config.discovery.seed_candidates =
            vec![Url::parse("ftp://a.example/").expect("URL")]),
        Some(ConfigError::EntryScheme)
    );
    assert_eq!(
        fault(|config| config.discovery.seed_candidates =
            vec![Url::parse("https://u:p@a.example/").expect("URL")]),
        Some(ConfigError::EntryCredentials)
    );
    assert_eq!(
        fault(|config| config.browser.navigation_timeout_seconds = 0),
        Some(ConfigError::ZeroTimeout)
    );
    assert_eq!(
        fault(|config| {
            config.browser.navigation_timeout_seconds = 50;
            config.browser.overall_timeout_seconds = 40;
        }),
        Some(ConfigError::TimeoutOrder)
    );
    assert_eq!(
        fault(|config| config.browser.overall_timeout_seconds = 301),
        Some(ConfigError::OverallTimeout)
    );
    assert_eq!(
        fault(|config| config.discovery.max_source_pages = Positive::new(9).expect("nonzero")),
        Some(ConfigError::DiscoveryLimits)
    );
    assert_eq!(
        fault(|config| config.search.max_title_characters = Positive::new(513).expect("nonzero")),
        Some(ConfigError::SearchLimits)
    );
    assert_eq!(
        fault(|config| config.downloader.seed_after_completion = true),
        Some(ConfigError::Seeding)
    );
}

#[test]
fn every_error_is_told() {
    for error in [
        ConfigError::UnsupportedSchema(2),
        ConfigError::NoDiscoveryEntry,
        ConfigError::EntryScheme,
        ConfigError::EntryCredentials,
        ConfigError::EntryHost,
        ConfigError::ZeroTimeout,
        ConfigError::TimeoutOrder,
        ConfigError::OverallTimeout,
        ConfigError::DiscoveryLimits,
        ConfigError::SearchLimits,
        ConfigError::Seeding,
        ConfigError::RelativeBase(BaseVariable::CacheHome),
        ConfigError::HomeUnset(BaseVariable::ConfigHome),
        ConfigError::RelativeHome,
        ConfigError::NoCurrentDirectory,
    ] {
        assert!(!error.message().is_empty());
    }
    assert!(ConfigError::RelativeBase(BaseVariable::CacheHome)
        .message()
        .contains("XDG_CACHE_HOME"));
    assert_eq!(
        validate_entry_url(&Url::parse("https://a.example/").expect("URL")),
        Ok(())
    );
}

#[test]
fn the_command_line_goes_before_the_file() {
    let mut parsed = document(1);
    parsed.search = search_document(3);
    parsed.browser = Some(BrowserDocument {
        headless: Some(true),
        selector_timeout_seconds: Some(9),
        ..browser_document()
    });
    parsed.downloader = Some(DownloaderDocument {
        client: Some(DownloaderPreference::Auto),
        output_directory: Some(path("from-file")),
        seed_after_completion: None,
    });
    let mut loaded =
        load_or_create(isolated_paths(), FileCreation::Exists, FileContents::Parsed(parsed))
            .expect("loaded");
    let mut options = cli(None, None);
    options.headful = true;
    options.client = Some(DownloaderPreference::Aria2c);
    loaded.config.apply_cli(&options).expect("applied");
    assert_eq!(loaded.config.search.result_limit.get(), 3);
    assert_eq!(loaded.config.browser.selector_timeout_seconds, 9);
    assert!(!loaded.config.browser.headless);
    assert_eq!(loaded.config.downloader.client, DownloaderPreference::Aria2c);
    assert_eq!(loaded.config.downloader.output_directory, path("from-file"));
}

#[test]
fn creation_never_replaces_a_file() {
    assert_eq!(judge_creation(FileCreation::Exists), Ok(false));
    assert_eq!(
        judge_creation(FileCreation::Opened { written: true, synced: true }),
        Ok(true)
    );
    assert_eq!(
        judge_creation(FileCreation::Opened { written: false, synced: false }),
        Err(LoadFailure::NotWritten)
    );
    assert_eq!(
        judge_creation(FileCreation::Opened { written: true, synced: false }),
        Err(LoadFailure::NotSynced)
    );
    assert_eq!(judge_creation(FileCreation::Failed), Err(LoadFailure::NotCreated));
    assert_eq!(
        judge_creation(FileCreation::NoDirectory(path("/t"))),
        Err(LoadFailure::DirectoryNotCreated(path("/t")))
    );
}

#[test]
fn load_failures_are_told() {
    let file = path("/t/x.toml");
    for (failure, message) in [
        (LoadFailure::NoDirectory, "configuration path has no parent: /t/x.toml"),
        (
            LoadFailure::DirectoryNotCreated(path("/t")),
            "cannot create configuration directory /t",
        ),
        (LoadFailure::NotCreated, "cannot create default configuration /t/x.toml"),
        (LoadFailure::NotWritten, "cannot write default configuration /t/x.toml"),
        (LoadFailure::NotSynced, "cannot sync default configuration /t/x.toml"),
        (LoadFailure::Unreadable, "cannot read configuration /t/x.toml"),
        (LoadFailure::NotUtf8, "configuration /t/x.toml is not valid UTF-8"),
        (
            LoadFailure::Malformed(None),
            "cannot parse configuration /t/x.toml: TOML syntax or value type is invalid; the file was left unchanged",
        ),
    ] {
        assert_eq!(failure.message(&file), message);
    }
    assert_eq!(check_directory(&path("x.toml")), Err(LoadFailure::NoDirectory));
    assert_eq!(check_directory(&path("/x.toml")), Ok(()));
    for contents in [FileContents::Unreadable, FileContents::NotUtf8] {
        assert!(load_or_create(isolated_paths(), FileCreation::Exists, contents).is_err());
    }
}

#[test]
fn paths_behave_like_those_of_std() {
    for (base, tail) in [
        ("/a", "b"),
        ("/a/", "b/c"),
        ("", "b"),
        ("a", ""),
        ("a", "/b"),
        ("/", "b"),
        ("a/b", "../c"),
    ] {
        let expected = std::path::Path::new(base).join(tail);
        let found = path(base).join(&path(tail));
        assert_eq!(found.display(), expected.display().to_string(), "{base} {tail}");
        assert_eq!(found.is_absolute(), expected.is_absolute());
    }
    for value in ["", "/", "a", "./a", "a/.", "a//b", "/a/b/", "..", "../..", "a/./b", "//", "."] {
        let expected = std::path::Path::new(value).components().count() as u128;
        assert_eq!(path(value).components(), expected, "{value}");
    }
    let odd = FilePath::from_bytes(vec![b'a', 0xff, b'b']);
    assert_eq!(odd.display(), "a\u{fffd}b");
    assert_eq!(odd.as_bytes(), [b'a', 0xff, b'b']);
}

#[test]
fn a_count_is_never_zero() {
    assert_eq!(Positive::new(0), None);
    assert_eq!(Positive::new(1).expect("one").get(), 1);
}

#[test]
fn paths_with_the_same_components_are_equal() {
    let paths = [
        "", ".", "./", "a", "a/", "a//", "./a", "a/.", "a/./b", "a//b", "a/b", "/", "//", "/a", "//a",
        "/./a", "/a/", "..", "../a", "a/..", "a/../b", "!a", "ab", "a!/b", ".a", "..a", "/..",
    ];
    for left in paths {
        for right in paths {
            let expected = std::path::Path::new(left).cmp(std::path::Path::new(right));
            assert_eq!(
                path(left) == path(right),
                std::path::Path::new(left) == std::path::Path::new(right),
                "{left} {right}"
            );
            assert_eq!(
                match path(left).order(&path(right)) {
                    Order::Before => std::cmp::Ordering::Less,
                    Order::Same => std::cmp::Ordering::Equal,
                    Order::After => std::cmp::Ordering::Greater,
                },
                expected,
                "{left} {right}"
            );
        }
    }
    let named = ConfigPaths { config_file: path("/t/a"), cache_dir: path("/c") };
    let other = ConfigPaths { config_file: path("/t//./a/"), cache_dir: path("//c") };
    assert_eq!(named, other);
}
