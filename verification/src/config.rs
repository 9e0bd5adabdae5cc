//! Settings: defaults, the configuration file, the command line, and where the
//! files are.

use crate::cli::Cli;
use crate::paths;
use crate::paths::FilePath;
use crate::text;
use crate::text::decimal_string;
use crate::weburl;
use crate::weburl::Url;
use vstd::prelude::*;

verus! {

/// The version of the configuration format.
pub const CONFIG_SCHEMA_VERSION: u32 = 1;

/// The most discovery source pages.
pub const HARD_MAX_SOURCE_PAGES: usize = 8;

/// The most proxy candidates.
pub const HARD_MAX_CANDIDATES: usize = 64;

/// The most results that may be shown.
pub const HARD_MAX_RESULTS: usize = 500;

/// The most characters of a title that may be shown.
pub const HARD_MAX_TITLE_CHARACTERS: usize = 512;

/// The longest browser session, in seconds.
pub const HARD_MAX_BROWSER_TIMEOUT_SECONDS: u64 = 300;

/// The configuration file that a first run writes.
pub const DEFAULT_CONFIG_TEMPLATE: &'static str = r#"# pbtdl configuration
# Settings in this file override built-in defaults. Command-line options override this file.
schema_version = 1

[discovery]
# Human-facing HTML pages whose rendered links are inspected for proxy candidates.
source_pages = [
  "https://piratebayproxy.info/",
  "https://techpp.com/2023/02/17/the-pirate-bay-proxy-list/",
]
# Direct candidates are validated in Chromium exactly like discovered candidates.
seed_candidates = []
max_source_pages = 4
max_candidates = 24
cache_ttl_seconds = 21600

[browser]
# executable = "/usr/bin/chromium"
headless = true
navigation_timeout_seconds = 15
selector_timeout_seconds = 10
overall_timeout_seconds = 90

[search]
result_limit = 10
max_title_characters = 120

[downloader]
client = "auto"
output_directory = "."
# pbtdl supports only stop-after-completion behavior.
seed_after_completion = false
"#;

// --------------------------------------------------------------------- counts

/// A count that is at least one.
#[derive(Debug, Clone, Copy, PartialEq, Eq)]
pub struct Positive {
    value: usize,
}

impl View for Positive {
    type V = nat;

    closed spec fn view(&self) -> nat {
        self.value as nat
    }
}

impl Positive {
    #[verifier::type_invariant]
    spec fn is_positive(self) -> bool {
        self.value > 0
    }

    /// The count, unless it is zero.
    pub fn new(value: usize) -> (r: Option<Positive>)
        ensures
            match r {
                Some(count) => count@ == value && value > 0,
                None => value == 0,
            },
    {
        if value == 0 {
            None
        } else {
            Some(Positive { value })
        }
    }

    /// The count as a number.
    pub fn get(&self) -> (r: usize)
        ensures
            r == self@,
            r > 0,
    {
        proof {
            use_type_invariant(self);
        }
        self.value
    }
}

/// The count `value`, which is not zero.
fn count(value: usize) -> (r: Positive)
    requires
        value > 0,
    ensures
        r@ == value,
{
    Positive { value }
}

// --------------------------------------------------------------------- errors

/// A variable that names a base directory.
#[derive(Debug, Clone, Copy, PartialEq, Eq, Structural)]
pub enum BaseVariable {
    ConfigHome,
    CacheHome,
}

/// Why settings cannot be used.
#[derive(Debug, Clone, Copy, PartialEq, Eq, Structural)]
pub enum ConfigError {
    UnsupportedSchema(u32),
    NoDiscoveryEntry,
    EntryScheme,
    EntryCredentials,
    EntryHost,
    ZeroTimeout,
    TimeoutOrder,
    OverallTimeout,
    DiscoveryLimits,
    SearchLimits,
    Seeding,
    RelativeBase(BaseVariable),
    HomeUnset(BaseVariable),
    RelativeHome,
    NoCurrentDirectory,
}

/// The name of a variable.
pub open spec fn variable_name(variable: BaseVariable) -> Seq<char> {
    match variable {
        BaseVariable::ConfigHome => "XDG_CONFIG_HOME"@,
        BaseVariable::CacheHome => "XDG_CACHE_HOME"@,
    }
}

/// What each error says.
pub open spec fn config_error_text(error: ConfigError) -> Seq<char> {
    match error {
        ConfigError::UnsupportedSchema(version) => "unsupported configuration schema version "@
            + text::decimal_text(version as nat) + "; expected "@ + text::decimal_text(
            CONFIG_SCHEMA_VERSION as nat,
        ),
        ConfigError::NoDiscoveryEntry =>
            "configuration must contain at least one discovery page or seed candidate"@,
        ConfigError::EntryScheme => "discovery entry must use HTTP or HTTPS"@,
        ConfigError::EntryCredentials => "discovery entry must not contain credentials"@,
        ConfigError::EntryHost => "discovery entry must contain a host"@,
        ConfigError::ZeroTimeout => "browser timeouts must be greater than zero"@,
        ConfigError::TimeoutOrder =>
            "browser navigation and selector timeouts cannot exceed the overall timeout"@,
        ConfigError::OverallTimeout => "browser overall timeout cannot exceed 300 seconds"@,
        ConfigError::DiscoveryLimits =>
            "discovery limits cannot exceed 8 source pages or 64 candidates"@,
        ConfigError::SearchLimits =>
            "search limits cannot exceed 500 results or 512 title characters"@,
        ConfigError::Seeding =>
            "seed_after_completion=true is unsupported; pbtdl stops after download completion"@,
        ConfigError::RelativeBase(variable) => variable_name(variable)
            + " must contain an absolute path"@,
        ConfigError::HomeUnset(variable) => "cannot resolve "@ + variable_name(variable)
            + ": HOME is not set"@,
        ConfigError::RelativeHome => "HOME must contain an absolute path"@,
        ConfigError::NoCurrentDirectory => "cannot resolve relative configuration path"@,
    }
}

impl BaseVariable {
    fn name(self) -> (r: &'static str)
        ensures
            r@ == variable_name(self),
    {
        match self {
            BaseVariable::ConfigHome => "XDG_CONFIG_HOME",
            BaseVariable::CacheHome => "XDG_CACHE_HOME",
        }
    }
}

impl ConfigError {
    /// The error in words.
    pub fn message(&self) -> (r: String)
        ensures
            r@ == config_error_text(*self),
    {
        match self {
            ConfigError::UnsupportedSchema(version) => {
                let mut out = "unsupported configuration schema version ".to_string();
                let found = decimal_string(*version as u64);
                out.append(found.as_str());
                out.append("; expected ");
                let expected = decimal_string(CONFIG_SCHEMA_VERSION as u64);
                out.append(expected.as_str());
                out
            },
            ConfigError::NoDiscoveryEntry => {
                "configuration must contain at least one discovery page or seed candidate".to_string()
            },
            ConfigError::EntryScheme => "discovery entry must use HTTP or HTTPS".to_string(),
            ConfigError::EntryCredentials => {
                "discovery entry must not contain credentials".to_string()
            },
            ConfigError::EntryHost => "discovery entry must contain a host".to_string(),
            ConfigError::ZeroTimeout => "browser timeouts must be greater than zero".to_string(),
            ConfigError::TimeoutOrder => {
                "browser navigation and selector timeouts cannot exceed the overall timeout".to_string()
            },
            ConfigError::OverallTimeout => {
                "browser overall timeout cannot exceed 300 seconds".to_string()
            },
            ConfigError::DiscoveryLimits => {
                "discovery limits cannot exceed 8 source pages or 64 candidates".to_string()
            },
            ConfigError::SearchLimits => {
                "search limits cannot exceed 500 results or 512 title characters".to_string()
            },
            ConfigError::Seeding => {
                "seed_after_completion=true is unsupported; pbtdl stops after download completion".to_string()
            },
            ConfigError::RelativeBase(variable) => {
                let mut out = variable.name().to_string();
                out.append(" must contain an absolute path");
                out
            },
            ConfigError::HomeUnset(variable) => {
                let mut out = "cannot resolve ".to_string();
                out.append(variable.name());
                out.append(": HOME is not set");
                out
            },
            ConfigError::RelativeHome => "HOME must contain an absolute path".to_string(),
            ConfigError::NoCurrentDirectory => {
                "cannot resolve relative configuration path".to_string()
            },
        }
    }
}

// ---------------------------------------------------------------------- paths

/// The variables that say where settings and caches are kept.
#[derive(Debug, PartialEq, Eq)]
pub struct ConfigEnvironment {
    xdg_config_home: Option<FilePath>,
    xdg_cache_home: Option<FilePath>,
    home: Option<FilePath>,
}

/// The variables by their values.
pub struct EnvironmentModel {
    pub config_home: Option<Seq<u8>>,
    pub cache_home: Option<Seq<u8>>,
    pub home: Option<Seq<u8>>,
}

impl View for ConfigEnvironment {
    type V = EnvironmentModel;

    closed spec fn view(&self) -> EnvironmentModel {
        EnvironmentModel {
            config_home: paths::opt_path(self.xdg_config_home),
            cache_home: paths::opt_path(self.xdg_cache_home),
            home: paths::opt_path(self.home),
        }
    }
}

impl ConfigEnvironment {
    /// An environment with these variables.
    pub fn new(
        xdg_config_home: Option<FilePath>,
        xdg_cache_home: Option<FilePath>,
        home: Option<FilePath>,
    ) -> (r: ConfigEnvironment)
        ensures
            r@ == (EnvironmentModel {
                config_home: paths::opt_path(xdg_config_home),
                cache_home: paths::opt_path(xdg_cache_home),
                home: paths::opt_path(home),
            }),
    {
        ConfigEnvironment { xdg_config_home, xdg_cache_home, home }
    }
}

/// A variable that is unset or empty counts as absent.
pub open spec fn set_value(value: Option<Seq<u8>>) -> Option<Seq<u8>> {
    match value {
        Some(path) => if path.len() > 0 {
            Some(path)
        } else {
            None
        },
        None => None,
    }
}

/// The base directory: the variable's, or else `fallback` below the home
/// directory. Either must be absolute.
pub open spec fn base_directory(
    value: Option<Seq<u8>>,
    home: Option<Seq<u8>>,
    fallback: Seq<u8>,
    variable: BaseVariable,
) -> Result<Seq<u8>, ConfigError> {
    match set_value(value) {
        Some(path) => if paths::is_absolute(path) {
            Ok(path)
        } else {
            Err(ConfigError::RelativeBase(variable))
        },
        None => match set_value(home) {
            Some(path) => if paths::is_absolute(path) {
                Ok(paths::joined(path, fallback))
            } else {
                Err(ConfigError::RelativeHome)
            },
            None => Err(ConfigError::HomeUnset(variable)),
        },
    }
}

/// The configuration file: the given one, which a relative path names below the
/// current directory, or else the standard one.
pub open spec fn config_file_path(
    chosen: Option<Seq<u8>>,
    environment: EnvironmentModel,
    current: Option<Seq<u8>>,
) -> Result<Seq<u8>, ConfigError> {
    match chosen {
        Some(path) => if paths::is_absolute(path) {
            Ok(path)
        } else {
            match current {
                Some(directory) => Ok(paths::joined(directory, path)),
                None => Err(ConfigError::NoCurrentDirectory),
            }
        },
        None => match base_directory(
            environment.config_home,
            environment.home,
            vstd::utf8::encode_utf8(".config"@),
            BaseVariable::ConfigHome,
        ) {
            Ok(base) => Ok(paths::joined(base, vstd::utf8::encode_utf8("pbtdl/pbtdl.toml"@))),
            Err(error) => Err(error),
        },
    }
}

/// The cache directory.
pub open spec fn cache_path(environment: EnvironmentModel) -> Result<Seq<u8>, ConfigError> {
    match base_directory(
        environment.cache_home,
        environment.home,
        vstd::utf8::encode_utf8(".cache"@),
        BaseVariable::CacheHome,
    ) {
        Ok(base) => Ok(paths::joined(base, vstd::utf8::encode_utf8("pbtdl"@))),
        Err(error) => Err(error),
    }
}

fn find_base(
    value: &Option<FilePath>,
    home: &Option<FilePath>,
    fallback: &str,
    variable: BaseVariable,
) -> (r: Result<FilePath, ConfigError>)
    ensures
        match r {
            Ok(path) => base_directory(
                paths::opt_path(*value),
                paths::opt_path(*home),
                vstd::utf8::encode_utf8(fallback@),
                variable,
            ) == Ok::<Seq<u8>, ConfigError>(path@),
            Err(error) => base_directory(
                paths::opt_path(*value),
                paths::opt_path(*home),
                vstd::utf8::encode_utf8(fallback@),
                variable,
            ) == Err::<Seq<u8>, ConfigError>(error),
        },
{
    if let Some(path) = value {
        if !path.is_empty() {
            if path.is_absolute() {
                return Ok(path.clone());
            }
            return Err(ConfigError::RelativeBase(variable));
        }
    }
    match home {
        Some(path) => if path.is_empty() {
            Err(ConfigError::HomeUnset(variable))
        } else if path.is_absolute() {
            Ok(path.join(&FilePath::new(fallback)))
        } else {
            Err(ConfigError::RelativeHome)
        },
        None => Err(ConfigError::HomeUnset(variable)),
    }
}

/// Where the configuration file and the cache are.
#[derive(Debug, PartialEq, Eq)]
pub struct ConfigPaths {
    pub config_file: FilePath,
    pub cache_dir: FilePath,
}

impl ConfigPaths {
    /// Finds the two places. `current_dir` is the current directory, as far as
    /// it is known.
    pub fn resolve(
        override_path: &Option<FilePath>,
        env: &ConfigEnvironment,
        current_dir: &Option<FilePath>,
    ) -> (r: Result<ConfigPaths, ConfigError>)
        ensures
            match (config_file_path(
                paths::opt_path(*override_path),
                env@,
                paths::opt_path(*current_dir),
            ), cache_path(env@)) {
                (Ok(file), Ok(cache)) => r matches Ok(found) && found.config_file@ == file
                    && found.cache_dir@ == cache,
                (Err(error), _) => r == Err::<ConfigPaths, ConfigError>(error),
                (Ok(_), Err(error)) => r == Err::<ConfigPaths, ConfigError>(error),
            },
    {
        let config_file = match override_path {
            Some(path) => if path.is_absolute() {
                path.clone()
            } else {
                match current_dir {
                    Some(directory) => directory.join(path),
                    None => {
                        return Err(ConfigError::NoCurrentDirectory);
                    },
                }
            },
            None => match find_base(
                &env.xdg_config_home,
                &env.home,
                ".config",
                BaseVariable::ConfigHome,
            ) {
                Ok(base) => base.join(&FilePath::new("pbtdl/pbtdl.toml")),
                Err(error) => {
                    return Err(error);
                },
            },
        };
        match find_base(&env.xdg_cache_home, &env.home, ".cache", BaseVariable::CacheHome) {
            Ok(base) => {
                let cache_dir = base.join(&FilePath::new("pbtdl"));
                Ok(ConfigPaths { config_file, cache_dir })
            },
            Err(error) => Err(error),
        }
    }
}

/// Wherever settings and caches are found, the paths are absolute, given that
/// the current directory is.
pub proof fn resolved_paths_are_absolute(
    chosen: Option<Seq<u8>>,
    environment: EnvironmentModel,
    current: Option<Seq<u8>>,
)
    requires
        current matches Some(directory) ==> paths::is_absolute(directory),
    ensures
        config_file_path(chosen, environment, current) matches Ok(file) ==> paths::is_absolute(file),
        cache_path(environment) matches Ok(cache) ==> paths::is_absolute(cache),
{
}

// ------------------------------------------------------------------- settings

/// Where proxy candidates come from.
#[derive(Debug, PartialEq, Eq)]
pub struct DiscoveryConfig {
    pub source_pages: Vec<Url>,
    pub seed_candidates: Vec<Url>,
    pub max_source_pages: Positive,
    pub max_candidates: Positive,
    pub cache_ttl_seconds: u64,
}

/// How the browser runs.
#[derive(Debug, PartialEq, Eq)]
pub struct BrowserConfig {
    pub executable: Option<FilePath>,
    pub headless: bool,
    pub navigation_timeout_seconds: u64,
    pub selector_timeout_seconds: u64,
    pub overall_timeout_seconds: u64,
}

/// How many results are shown, and how much of their titles.
#[derive(Debug, Clone, Copy, PartialEq, Eq)]
pub struct SearchConfig {
    pub result_limit: Positive,
    pub max_title_characters: Positive,
}

/// Which torrent client is wanted.
#[derive(Debug, Clone, Copy, PartialEq, Eq, Structural)]
pub enum DownloaderPreference {
    Auto,
    Aria2c,
    TransmissionCli,
    QbittorrentNox,
}

/// How downloads are made.
#[derive(Debug, PartialEq, Eq)]
pub struct DownloaderConfig {
    pub client: DownloaderPreference,
    pub output_directory: FilePath,
    pub seed_after_completion: bool,
}

/// All settings.
#[derive(Debug, PartialEq, Eq)]
pub struct AppConfig {
    pub discovery: DiscoveryConfig,
    pub browser: BrowserConfig,
    pub search: SearchConfig,
    pub downloader: DownloaderConfig,
}

/// The built-in source pages.
pub open spec fn built_in_pages() -> Seq<Seq<char>> {
    seq![
        "https://piratebayproxy.info/"@,
        "https://techpp.com/2023/02/17/the-pirate-bay-proxy-list/"@,
    ]
}

/// The URLs among the texts, in order.
pub open spec fn parsed(texts: Seq<Seq<char>>) -> Seq<weburl::UrlModel>
    decreases texts.len(),
{
    if texts.len() == 0 {
        Seq::empty()
    } else {
        match weburl::url_parse(texts.last()) {
            Some(url) => parsed(texts.drop_last()).push(url),
            None => parsed(texts.drop_last()),
        }
    }
}

/// The default settings of discovery.
pub open spec fn is_default_discovery(c: DiscoveryConfig) -> bool {
    &&& weburl::url_views(c.source_pages@) == parsed(built_in_pages())
    &&& c.seed_candidates@ == Seq::<Url>::empty()
    &&& c.max_source_pages@ == 4
    &&& c.max_candidates@ == 24
    &&& c.cache_ttl_seconds == 21_600
}

/// The default settings of the browser.
pub open spec fn is_default_browser(c: BrowserConfig) -> bool {
    &&& c.executable is None
    &&& c.headless
    &&& c.navigation_timeout_seconds == 15
    &&& c.selector_timeout_seconds == 10
    &&& c.overall_timeout_seconds == 90
}

/// The default settings.
pub open spec fn is_default(c: AppConfig) -> bool {
    &&& is_default_discovery(c.discovery)
    &&& is_default_browser(c.browser)
    &&& c.search.result_limit@ == 10
    &&& c.search.max_title_characters@ == 120
    &&& c.downloader.client == DownloaderPreference::Auto
    &&& c.downloader.output_directory@ == vstd::utf8::encode_utf8("."@)
    &&& !c.downloader.seed_after_completion
}

fn push_parsed(out: &mut Vec<Url>, address: &str, Ghost(done): Ghost<Seq<Seq<char>>>)
    requires
        weburl::url_views(old(out)@) == parsed(done),
    ensures
        weburl::url_views(final(out)@) == parsed(done.push(address@)),
{
    proof {
        assert(done.push(address@).drop_last() =~= done);
    }
    if let Some(url) = Url::parse(address) {
        let ghost before = weburl::url_views(out@);
        out.push(url);
        proof {
            assert(weburl::url_views(out@) =~= before.push(url@));
        }
    }
}

impl Default for DiscoveryConfig {
    fn default() -> (r: DiscoveryConfig)
        ensures
            is_default_discovery(r),
    {
        let mut source_pages: Vec<Url> = Vec::new();
        let ghost none = Seq::<Seq<char>>::empty();
        proof {
            assert(weburl::url_views(source_pages@) =~= parsed(none));
        }
        push_parsed(&mut source_pages, "https://piratebayproxy.info/", Ghost(none));
        push_parsed(
            &mut source_pages,
            "https://techpp.com/2023/02/17/the-pirate-bay-proxy-list/",
            Ghost(none.push("https://piratebayproxy.info/"@)),
        );
        proof {
            assert(none.push("https://piratebayproxy.info/"@).push(
                "https://techpp.com/2023/02/17/the-pirate-bay-proxy-list/"@,
            ) =~= built_in_pages());
        }
        DiscoveryConfig {
            source_pages,
            seed_candidates: Vec::new(),
            max_source_pages: count(4),
            max_candidates: count(24),
            cache_ttl_seconds: 21_600,
        }
    }
}

impl Default for BrowserConfig {
    fn default() -> (r: BrowserConfig)
        ensures
            is_default_browser(r),
    {
        BrowserConfig {
            executable: None,
            headless: true,
            navigation_timeout_seconds: 15,
            selector_timeout_seconds: 10,
            overall_timeout_seconds: 90,
        }
    }
}

impl Default for SearchConfig {
    fn default() -> (r: SearchConfig)
        ensures
            r.result_limit@ == 10,
            r.max_title_characters@ == 120,
    {
        SearchConfig { result_limit: count(10), max_title_characters: count(120) }
    }
}

impl Default for DownloaderConfig {
    fn default() -> (r: DownloaderConfig)
        ensures
            r.client == DownloaderPreference::Auto,
            r.output_directory@ == vstd::utf8::encode_utf8("."@),
            !r.seed_after_completion,
    {
        DownloaderConfig {
            client: DownloaderPreference::Auto,
            output_directory: FilePath::new("."),
            seed_after_completion: false,
        }
    }
}

impl Default for AppConfig {
    fn default() -> (r: AppConfig)
        ensures
            is_default(r),
    {
        AppConfig {
            discovery: DiscoveryConfig::default(),
            browser: BrowserConfig::default(),
            search: SearchConfig::default(),
            downloader: DownloaderConfig::default(),
        }
    }
}

// ------------------------------------------------------------------ documents

/// The `discovery` table of a configuration file.
#[derive(Debug, PartialEq, Eq)]
pub struct DiscoveryDocument {
    pub source_pages: Option<Vec<Url>>,
    pub seed_candidates: Option<Vec<Url>>,
    pub max_source_pages: Option<Positive>,
    pub max_candidates: Option<Positive>,
    pub cache_ttl_seconds: Option<u64>,
}

/// The `browser` table of a configuration file.
#[derive(Debug, PartialEq, Eq)]
pub struct BrowserDocument {
    pub executable: Option<FilePath>,
    pub headless: Option<bool>,
    pub navigation_timeout_seconds: Option<u64>,
    pub selector_timeout_seconds: Option<u64>,
    pub overall_timeout_seconds: Option<u64>,
}

/// The `search` table of a configuration file.
#[derive(Debug, PartialEq, Eq)]
pub struct SearchDocument {
    pub result_limit: Option<Positive>,
    pub max_title_characters: Option<Positive>,
}

/// The `downloader` table of a configuration file.
#[derive(Debug, PartialEq, Eq)]
pub struct DownloaderDocument {
    pub client: Option<DownloaderPreference>,
    pub output_directory: Option<FilePath>,
    pub seed_after_completion: Option<bool>,
}

/// A configuration file.
#[derive(Debug, PartialEq, Eq)]
pub struct ConfigDocument {
    pub schema_version: u32,
    pub discovery: Option<DiscoveryDocument>,
    pub browser: Option<BrowserDocument>,
    pub search: Option<SearchDocument>,
    pub downloader: Option<DownloaderDocument>,
}

/// What is given, or else what was there.
pub open spec fn given_or<T>(given: Option<T>, other: T) -> T {
    match given {
        Some(value) => value,
        None => other,
    }
}

/// Discovery settings with what a table gives in place of what was there.
pub open spec fn with_discovery(c: DiscoveryConfig, d: Option<DiscoveryDocument>) -> DiscoveryConfig {
    match d {
        Some(d) => DiscoveryConfig {
            source_pages: given_or(d.source_pages, c.source_pages),
            seed_candidates: given_or(d.seed_candidates, c.seed_candidates),
            max_source_pages: given_or(d.max_source_pages, c.max_source_pages),
            max_candidates: given_or(d.max_candidates, c.max_candidates),
            cache_ttl_seconds: given_or(d.cache_ttl_seconds, c.cache_ttl_seconds),
        },
        None => c,
    }
}

/// Browser settings with what a table gives in place of what was there.
pub open spec fn with_browser(c: BrowserConfig, d: Option<BrowserDocument>) -> BrowserConfig {
    match d {
        Some(d) => BrowserConfig {
            executable: match d.executable {
                Some(path) => Some(path),
                None => c.executable,
            },
            headless: given_or(d.headless, c.headless),
            navigation_timeout_seconds: given_or(
                d.navigation_timeout_seconds,
                c.navigation_timeout_seconds,
            ),
            selector_timeout_seconds: given_or(
                d.selector_timeout_seconds,
                c.selector_timeout_seconds,
            ),
            overall_timeout_seconds: given_or(d.overall_timeout_seconds, c.overall_timeout_seconds),
        },
        None => c,
    }
}

/// Search settings with what a table gives in place of what was there.
pub open spec fn with_search(c: SearchConfig, d: Option<SearchDocument>) -> SearchConfig {
    match d {
        Some(d) => SearchConfig {
            result_limit: given_or(d.result_limit, c.result_limit),
            max_title_characters: given_or(d.max_title_characters, c.max_title_characters),
        },
        None => c,
    }
}

/// Download settings with what a table gives in place of what was there.
pub open spec fn with_downloader(
    c: DownloaderConfig,
    d: Option<DownloaderDocument>,
) -> DownloaderConfig {
    match d {
        Some(d) => DownloaderConfig {
            client: given_or(d.client, c.client),
            output_directory: given_or(d.output_directory, c.output_directory),
            seed_after_completion: given_or(d.seed_after_completion, c.seed_after_completion),
        },
        None => c,
    }
}

/// Settings with what a file gives in place of what was there.
pub open spec fn with_document(c: AppConfig, d: ConfigDocument) -> AppConfig {
    AppConfig {
        discovery: with_discovery(c.discovery, d.discovery),
        browser: with_browser(c.browser, d.browser),
        search: with_search(c.search, d.search),
        downloader: with_downloader(c.downloader, d.downloader),
    }
}

/// Whether `after` is `before` with what the command line gives in place.
pub open spec fn matches_cli(before: AppConfig, cli: Cli, after: AppConfig) -> bool {
    &&& after.discovery == before.discovery
    &&& after.browser == (BrowserConfig {
        headless: before.browser.headless && !cli.headful,
        ..before.browser
    })
    &&& after.search == (SearchConfig {
        result_limit: given_or(cli.results, before.search.result_limit),
        ..before.search
    })
    &&& after.downloader.client == given_or(cli.client, before.downloader.client)
    &&& after.downloader.output_directory@ == (match cli.output {
        Some(path) => path@,
        None => before.downloader.output_directory@,
    })
    &&& after.downloader.seed_after_completion == before.downloader.seed_after_completion
}

impl DiscoveryConfig {
    fn take_over(&mut self, table: Option<DiscoveryDocument>)
        ensures
            *final(self) == with_discovery(*old(self), table),
    {
        if let Some(table) = table {
            if let Some(value) = table.source_pages {
                self.source_pages = value;
            }
            if let Some(value) = table.seed_candidates {
                self.seed_candidates = value;
            }
            if let Some(value) = table.max_source_pages {
                self.max_source_pages = value;
            }
            if let Some(value) = table.max_candidates {
                self.max_candidates = value;
            }
            if let Some(value) = table.cache_ttl_seconds {
                self.cache_ttl_seconds = value;
            }
        }
    }
}

impl BrowserConfig {
    fn take_over(&mut self, table: Option<BrowserDocument>)
        ensures
            *final(self) == with_browser(*old(self), table),
    {
        if let Some(table) = table {
            if let Some(value) = table.executable {
                self.executable = Some(value);
            }
            if let Some(value) = table.headless {
                self.headless = value;
            }
            if let Some(value) = table.navigation_timeout_seconds {
                self.navigation_timeout_seconds = value;
            }
            if let Some(value) = table.selector_timeout_seconds {
                self.selector_timeout_seconds = value;
            }
            if let Some(value) = table.overall_timeout_seconds {
                self.overall_timeout_seconds = value;
            }
        }
    }
}

impl SearchConfig {
    fn take_over(&mut self, table: Option<SearchDocument>)
        ensures
            *final(self) == with_search(*old(self), table),
    {
        if let Some(table) = table {
            if let Some(value) = table.result_limit {
                self.result_limit = value;
            }
            if let Some(value) = table.max_title_characters {
                self.max_title_characters = value;
            }
        }
    }
}

impl DownloaderConfig {
    fn take_over(&mut self, table: Option<DownloaderDocument>)
        ensures
            *final(self) == with_downloader(*old(self), table),
    {
        if let Some(table) = table {
            if let Some(value) = table.client {
                self.client = value;
            }
            if let Some(value) = table.output_directory {
                self.output_directory = value;
            }
            if let Some(value) = table.seed_after_completion {
                self.seed_after_completion = value;
            }
        }
    }
}

// ----------------------------------------------------------------- validation

/// What is wrong with a discovery entry.
pub open spec fn entry_fault(url: weburl::UrlModel) -> Option<ConfigError> {
    if !weburl::is_web(url) {
        Some(ConfigError::EntryScheme)
    } else if weburl::has_credentials(url) {
        Some(ConfigError::EntryCredentials)
    } else if url.host_text is None {
        Some(ConfigError::EntryHost)
    } else {
        None
    }
}

/// What is wrong with the first bad discovery entry.
pub open spec fn first_entry_fault(urls: Seq<weburl::UrlModel>) -> Option<ConfigError>
    decreases urls.len(),
{
    if urls.len() == 0 {
        None
    } else {
        match entry_fault(urls[0]) {
            Some(error) => Some(error),
            None => first_entry_fault(urls.drop_first()),
        }
    }
}

/// All discovery entries: the source pages, then the seeds.
pub open spec fn entries(c: DiscoveryConfig) -> Seq<weburl::UrlModel> {
    weburl::url_views(c.source_pages@) + weburl::url_views(c.seed_candidates@)
}

/// What is wrong with the browser timeouts.
pub open spec fn timeout_fault(c: BrowserConfig) -> Option<ConfigError> {
    if c.navigation_timeout_seconds == 0 || c.selector_timeout_seconds == 0
        || c.overall_timeout_seconds == 0 {
        Some(ConfigError::ZeroTimeout)
    } else if c.navigation_timeout_seconds > c.overall_timeout_seconds || c.selector_timeout_seconds
        > c.overall_timeout_seconds {
        Some(ConfigError::TimeoutOrder)
    } else if c.overall_timeout_seconds > HARD_MAX_BROWSER_TIMEOUT_SECONDS {
        Some(ConfigError::OverallTimeout)
    } else {
        None
    }
}

/// The first thing that is wrong with settings.
pub open spec fn config_fault(c: AppConfig) -> Option<ConfigError> {
    if entries(c.discovery).len() == 0 {
        Some(ConfigError::NoDiscoveryEntry)
    } else if first_entry_fault(entries(c.discovery)) is Some {
        first_entry_fault(entries(c.discovery))
    } else if timeout_fault(c.browser) is Some {
        timeout_fault(c.browser)
    } else if c.discovery.max_source_pages@ > HARD_MAX_SOURCE_PAGES || c.discovery.max_candidates@
        > HARD_MAX_CANDIDATES || c.discovery.source_pages@.len() > HARD_MAX_SOURCE_PAGES
        || c.discovery.seed_candidates@.len() > HARD_MAX_CANDIDATES {
        Some(ConfigError::DiscoveryLimits)
    } else if c.search.result_limit@ > HARD_MAX_RESULTS || c.search.max_title_characters@
        > HARD_MAX_TITLE_CHARACTERS {
        Some(ConfigError::SearchLimits)
    } else if c.downloader.seed_after_completion {
        Some(ConfigError::Seeding)
    } else {
        None
    }
}

/// Whether a result reports exactly this fault.
pub open spec fn reports(r: Result<(), ConfigError>, fault: Option<ConfigError>) -> bool {
    match fault {
        Some(error) => r == Err::<(), ConfigError>(error),
        None => r is Ok,
    }
}

/// Checks one discovery entry.
pub fn validate_entry_url(url: &Url) -> (r: Result<(), ConfigError>)
    ensures
        reports(r, entry_fault(url@)),
{
    if !url.is_web() {
        return Err(ConfigError::EntryScheme);
    }
    if url.has_credentials() {
        return Err(ConfigError::EntryCredentials);
    }
    if url.host_str().is_none() {
        return Err(ConfigError::EntryHost);
    }
    Ok(())
}

fn validate_entries(urls: &Vec<Url>) -> (r: Result<(), ConfigError>)
    ensures
        reports(r, first_entry_fault(weburl::url_views(urls@))),
{
    let ghost all = weburl::url_views(urls@);
    let mut i: usize = 0;
    proof {
        assert(all.skip(0) =~= all);
    }
    while i < urls.len()
        invariant
            i <= urls@.len(),
            all == weburl::url_views(urls@),
            first_entry_fault(all.skip(i as int)) == first_entry_fault(all),
        decreases urls@.len() - i,
    {
        proof {
            assert(all.skip(i as int)[0] == all[i as int]);
            assert(all.skip(i as int).drop_first() =~= all.skip(i as int + 1));
        }
        match validate_entry_url(&urls[i]) {
            Ok(_) => {},
            Err(error) => {
                return Err(error);
            },
        }
        i = i + 1;
    }
    Ok(())
}

proof fn faults_chain(first: Seq<weburl::UrlModel>, second: Seq<weburl::UrlModel>)
    ensures
        first_entry_fault(first + second) == (match first_entry_fault(first) {
            Some(error) => Some(error),
            None => first_entry_fault(second),
        }),
    decreases first.len(),
{
    if first.len() == 0 {
        assert(first + second =~= second);
    } else {
        faults_chain(first.drop_first(), second);
        assert((first + second).drop_first() =~= first.drop_first() + second);
    }
}

impl AppConfig {
    /// Whether the settings can be used.
    pub fn validate(&self) -> (r: Result<(), ConfigError>)
        ensures
            reports(r, config_fault(*self)),
    {
        proof {
            faults_chain(
                weburl::url_views(self.discovery.source_pages@),
                weburl::url_views(self.discovery.seed_candidates@),
            );
        }
        if self.discovery.source_pages.len() == 0 && self.discovery.seed_candidates.len() == 0 {
            return Err(ConfigError::NoDiscoveryEntry);
        }
        match validate_entries(&self.discovery.source_pages) {
            Ok(_) => {},
            Err(error) => {
                return Err(error);
            },
        }
        match validate_entries(&self.discovery.seed_candidates) {
            Ok(_) => {},
            Err(error) => {
                return Err(error);
            },
        }
        if self.browser.navigation_timeout_seconds == 0 || self.browser.selector_timeout_seconds
            == 0 || self.browser.overall_timeout_seconds == 0 {
            return Err(ConfigError::ZeroTimeout);
        }
        if self.browser.navigation_timeout_seconds > self.browser.overall_timeout_seconds
            || self.browser.selector_timeout_seconds > self.browser.overall_timeout_seconds {
            return Err(ConfigError::TimeoutOrder);
        }
        if self.browser.overall_timeout_seconds > HARD_MAX_BROWSER_TIMEOUT_SECONDS {
            return Err(ConfigError::OverallTimeout);
        }
        if self.discovery.max_source_pages.get() > HARD_MAX_SOURCE_PAGES
            || self.discovery.max_candidates.get() > HARD_MAX_CANDIDATES
            || self.discovery.source_pages.len() > HARD_MAX_SOURCE_PAGES
            || self.discovery.seed_candidates.len() > HARD_MAX_CANDIDATES {
            return Err(ConfigError::DiscoveryLimits);
        }
        if self.search.result_limit.get() > HARD_MAX_RESULTS
            || self.search.max_title_characters.get() > HARD_MAX_TITLE_CHARACTERS {
            return Err(ConfigError::SearchLimits);
        }
        if self.downloader.seed_after_completion {
            return Err(ConfigError::Seeding);
        }
        Ok(())
    }

    /// Takes over what a configuration file gives, and checks the settings. A
    /// file of another version changes nothing.
    pub fn apply_document(&mut self, document: ConfigDocument) -> (r: Result<(), ConfigError>)
        ensures
            if document.schema_version != CONFIG_SCHEMA_VERSION {
                r == Err::<(), ConfigError>(
                    ConfigError::UnsupportedSchema(document.schema_version),
                ) && *final(self) == *old(self)
            } else {
                reports(r, config_fault(*final(self))) && *final(self) == with_document(
                    *old(self),
                    document,
                )
            },
    {
        if document.schema_version != CONFIG_SCHEMA_VERSION {
            return Err(ConfigError::UnsupportedSchema(document.schema_version));
        }
        self.discovery.take_over(document.discovery);
        self.browser.take_over(document.browser);
        self.search.take_over(document.search);
        self.downloader.take_over(document.downloader);
        self.validate()
    }

    /// Takes over what the command line gives, and checks the settings.
    pub fn apply_cli(&mut self, cli: &Cli) -> (r: Result<(), ConfigError>)
        ensures
            matches_cli(*old(self), *cli, *final(self)),
            reports(r, config_fault(*final(self))),
    {
        if let Some(output) = &cli.output {
            self.downloader.output_directory = output.clone();
        }
        if let Some(limit) = cli.results {
            self.search.result_limit = limit;
        }
        if cli.headful {
            self.browser.headless = false;
        }
        if let Some(client) = cli.client {
            self.downloader.client = client;
        }
        self.validate()
    }
}

// -------------------------------------------------------------------- loading

/// Settings that were loaded, and where from.
#[derive(Debug, PartialEq, Eq)]
pub struct LoadedConfig {
    pub config: AppConfig,
    pub paths: ConfigPaths,
    pub created: bool,
}

/// Settings that come from a document: those of the defaults where the document
/// gives none, and fit to use.
pub open spec fn is_loaded(
    loaded: LoadedConfig,
    document: ConfigDocument,
    paths: ConfigPaths,
    created: bool,
) -> bool {
    &&& document.schema_version == CONFIG_SCHEMA_VERSION
    &&& loaded.paths == paths
    &&& loaded.created == created
    &&& config_fault(loaded.config) is None
    &&& exists|base: AppConfig| #[trigger]
        is_default(base) && loaded.config == with_document(base, document)
}

/// Why a document gives no settings: its version is unknown, or what it sets on
/// top of the defaults is not fit to use.
pub open spec fn is_refused(document: ConfigDocument, error: ConfigError) -> bool {
    if document.schema_version != CONFIG_SCHEMA_VERSION {
        error == ConfigError::UnsupportedSchema(document.schema_version)
    } else {
        exists|base: AppConfig| #[trigger]
            is_default(base) && config_fault(with_document(base, document)) == Some(error)
    }
}

/// The settings of a document on top of the defaults.
pub fn load_document(document: ConfigDocument, paths: ConfigPaths, created: bool) -> (r: Result<
    LoadedConfig,
    ConfigError,
>)
    ensures
        match r {
            Ok(loaded) => is_loaded(loaded, document, paths, created),
            Err(error) => is_refused(document, error),
        },
{
    let mut config = AppConfig::default();
    let ghost base = config;
    match config.apply_document(document) {
        Ok(_) => {
            proof {
                assert(is_default(base));
            }
            Ok(LoadedConfig { config, paths, created })
        },
        Err(error) => {
            proof {
                assert(is_default(base));
            }
            Err(error)
        },
    }
}

/// How many line feeds the bytes hold.
pub open spec fn line_feeds(bytes: Seq<u8>) -> nat
    decreases bytes.len(),
{
    if bytes.len() == 0 {
        0
    } else {
        line_feeds(bytes.drop_last()) + (if bytes.last() == 10 {
            1nat
        } else {
            0nat
        })
    }
}

/// The number of the line on which the byte at `offset` stands, from one on.
pub open spec fn line_at(bytes: Seq<u8>, offset: nat) -> nat {
    1 + line_feeds(
        bytes.take(
            if offset < bytes.len() {
                offset as int
            } else {
                bytes.len() as int
            },
        ),
    )
}

proof fn line_feeds_bounded(bytes: Seq<u8>)
    ensures
        line_feeds(bytes) <= bytes.len(),
    decreases bytes.len(),
{
    if bytes.len() > 0 {
        line_feeds_bounded(bytes.drop_last());
    }
}

/// The line on which the byte at `offset` stands; none for a file so large that
/// the number does not fit.
pub fn line_number(contents: &[u8], offset: usize) -> (r: Option<u64>)
    ensures
        match r {
            Some(line) => line == line_at(contents@, offset as nat),
            None => contents@.len() >= u64::MAX,
        },
{
    if contents.len() as u64 == u64::MAX {
        return None;
    }
    let end = if offset < contents.len() {
        offset
    } else {
        contents.len()
    };
    let mut lines: u64 = 1;
    let mut i: usize = 0;
    proof {
        assert(contents@.take(0) =~= Seq::empty());
    }
    while i < end
        invariant
            i <= end <= contents@.len(),
            contents@.len() < u64::MAX,
            lines == 1 + line_feeds(contents@.take(i as int)),
        decreases end - i,
    {
        proof {
            assert(contents@.take(i as int + 1).drop_last() =~= contents@.take(i as int));
            line_feeds_bounded(contents@.take(i as int));
        }
        if contents[i] == 10 {
            lines = lines + 1;
        }
        i = i + 1;
    }
    Some(lines)
}

/// What stops a configuration file from being used.
#[derive(Debug, PartialEq, Eq)]
pub enum LoadFailure {
    /// The path names no file in a directory.
    NoDirectory,
    /// This directory could not be created.
    DirectoryNotCreated(FilePath),
    NotCreated,
    NotWritten,
    NotSynced,
    Unreadable,
    NotUtf8,
    /// The text is no TOML of the expected shape, near this line if it is known.
    Malformed(Option<u64>),
    Invalid(ConfigError),
}

/// What each failure says of the file.
pub open spec fn load_failure_text(failure: LoadFailure, file: Seq<char>) -> Seq<char> {
    match failure {
        LoadFailure::NoDirectory => "configuration path has no parent: "@ + file,
        LoadFailure::DirectoryNotCreated(directory) => "cannot create configuration directory "@
            + paths::lossy_text(directory@),
        LoadFailure::NotCreated => "cannot create default configuration "@ + file,
        LoadFailure::NotWritten => "cannot write default configuration "@ + file,
        LoadFailure::NotSynced => "cannot sync default configuration "@ + file,
        LoadFailure::Unreadable => "cannot read configuration "@ + file,
        LoadFailure::NotUtf8 => "configuration "@ + file + " is not valid UTF-8"@,
        LoadFailure::Malformed(line) => "cannot parse configuration "@ + file + (match line {
            Some(line) => " near line "@ + text::decimal_text(line as nat),
            None => Seq::empty(),
        }) + ": TOML syntax or value type is invalid; the file was left unchanged"@,
        LoadFailure::Invalid(error) => "invalid configuration "@ + file
            + "; the file was left unchanged: "@ + config_error_text(error),
    }
}

impl LoadFailure {
    /// The failure in words. It names the file and shows nothing of what the
    /// file holds but a line and a version number.
    pub fn message(&self, file: &FilePath) -> (r: String)
        ensures
            r@ == load_failure_text(*self, paths::lossy_text(file@)),
    {
        let shown = file.display();
        match self {
            LoadFailure::NoDirectory => {
                let mut out = "configuration path has no parent: ".to_string();
                out.append(shown.as_str());
                out
            },
            LoadFailure::DirectoryNotCreated(directory) => {
                let mut out = "cannot create configuration directory ".to_string();
                let shown = directory.display();
                out.append(shown.as_str());
                out
            },
            LoadFailure::NotCreated => {
                let mut out = "cannot create default configuration ".to_string();
                out.append(shown.as_str());
                out
            },
            LoadFailure::NotWritten => {
                let mut out = "cannot write default configuration ".to_string();
                out.append(shown.as_str());
                out
            },
            LoadFailure::NotSynced => {
                let mut out = "cannot sync default configuration ".to_string();
                out.append(shown.as_str());
                out
            },
            LoadFailure::Unreadable => {
                let mut out = "cannot read configuration ".to_string();
                out.append(shown.as_str());
                out
            },
            LoadFailure::NotUtf8 => {
                let mut out = "configuration ".to_string();
                out.append(shown.as_str());
                out.append(" is not valid UTF-8");
                out
            },
            LoadFailure::Malformed(line) => {
                let mut out = "cannot parse configuration ".to_string();
                out.append(shown.as_str());
                if let Some(line) = line {
                    out.append(" near line ");
                    let digits = decimal_string(*line);
                    out.append(digits.as_str());
                }
                out.append(": TOML syntax or value type is invalid; the file was left unchanged");
                proof {
                    assert(out@ =~= load_failure_text(*self, paths::lossy_text(file@)));
                }
                out
            },
            LoadFailure::Invalid(error) => {
                let mut out = "invalid configuration ".to_string();
                out.append(shown.as_str());
                out.append("; the file was left unchanged: ");
                let cause = error.message();
                out.append(cause.as_str());
                out
            },
        }
    }
}

/// Whether a configuration file can be created at a path: it must name a file in
/// some directory.
pub fn check_directory(file: &FilePath) -> (r: Result<(), LoadFailure>)
    ensures
        r == (if paths::component_count(file@) >= 2 {
            Ok(())
        } else {
            Err(LoadFailure::NoDirectory)
        }),
{
    if file.components() >= 2 {
        Ok(())
    } else {
        Err(LoadFailure::NoDirectory)
    }
}

/// How the attempt to create a configuration file went.
#[derive(Debug, PartialEq, Eq)]
pub enum FileCreation {
    /// The directory that was to hold it could not be created.
    NoDirectory(FilePath),
    /// There is a file already; it was not touched.
    Exists,
    /// A new file was opened; whether the template was written and the file
    /// synced.
    Opened { written: bool, synced: bool },
    Failed,
}

/// What an attempt to create a configuration file means: whether there is a new
/// one. A file that exists is no failure.
pub open spec fn creation_outcome(creation: FileCreation) -> Result<bool, LoadFailure> {
    match creation {
        FileCreation::NoDirectory(directory) => Err(LoadFailure::DirectoryNotCreated(directory)),
        FileCreation::Exists => Ok(false),
        FileCreation::Opened { written, synced } => if !written {
            Err(LoadFailure::NotWritten)
        } else if !synced {
            Err(LoadFailure::NotSynced)
        } else {
            Ok(true)
        },
        FileCreation::Failed => Err(LoadFailure::NotCreated),
    }
}

/// Judges an attempt to create a configuration file.
pub fn judge_creation(creation: FileCreation) -> (r: Result<bool, LoadFailure>)
    ensures
        r == creation_outcome(creation),
{
    match creation {
        FileCreation::NoDirectory(directory) => Err(LoadFailure::DirectoryNotCreated(directory)),
        FileCreation::Exists => Ok(false),
        FileCreation::Opened { written, synced } => if !written {
            Err(LoadFailure::NotWritten)
        } else if !synced {
            Err(LoadFailure::NotSynced)
        } else {
            Ok(true)
        },
        FileCreation::Failed => Err(LoadFailure::NotCreated),
    }
}

/// What a configuration file was found to hold.
#[derive(Debug, PartialEq, Eq)]
pub enum FileContents {
    Unreadable,
    NotUtf8,
    /// The text is no TOML of the expected shape, near this line if it is known.
    Malformed(Option<u64>),
    Parsed(ConfigDocument),
}

/// The settings of a configuration file, given how the attempt to create it went
/// and what it was then found to hold.
pub fn load_or_create(paths: ConfigPaths, creation: FileCreation, contents: FileContents) -> (r:
    Result<LoadedConfig, LoadFailure>)
    ensures
        if paths::component_count(paths.config_file@) < 2 {
            r == Err::<LoadedConfig, LoadFailure>(LoadFailure::NoDirectory)
        } else {
            match creation_outcome(creation) {
                Err(failure) => r == Err::<LoadedConfig, LoadFailure>(failure),
                Ok(created) => match contents {
                    FileContents::Unreadable => r == Err::<LoadedConfig, LoadFailure>(
                        LoadFailure::Unreadable,
                    ),
                    FileContents::NotUtf8 => r == Err::<LoadedConfig, LoadFailure>(
                        LoadFailure::NotUtf8,
                    ),
                    FileContents::Malformed(line) => r == Err::<LoadedConfig, LoadFailure>(
                        LoadFailure::Malformed(line),
                    ),
                    FileContents::Parsed(document) => match r {
                        Ok(loaded) => is_loaded(loaded, document, paths, created),
                        Err(LoadFailure::Invalid(error)) => is_refused(document, error),
                        Err(_) => false,
                    },
                },
            }
        },
{
    if let Err(failure) = check_directory(&paths.config_file) {
        return Err(failure);
    }
    let created = match judge_creation(creation) {
        Ok(created) => created,
        Err(failure) => {
            return Err(failure);
        },
    };
    match contents {
        FileContents::Unreadable => Err(LoadFailure::Unreadable),
        FileContents::NotUtf8 => Err(LoadFailure::NotUtf8),
        FileContents::Malformed(line) => Err(LoadFailure::Malformed(line)),
        FileContents::Parsed(document) => match load_document(document, paths, created) {
            Ok(loaded) => Ok(loaded),
            Err(error) => Err(LoadFailure::Invalid(error)),
        },
    }
}

/// What the command line gives wins over the file, and the file over the
/// defaults; what neither gives is the default.
pub proof fn settings_take_precedence(
    base: AppConfig,
    document: ConfigDocument,
    cli: Cli,
    settled: AppConfig,
)
    requires
        is_default(base),
        matches_cli(with_document(base, document), cli, settled),
    ensures
        cli.results matches Some(limit) ==> settled.search.result_limit == limit,
        cli.results is None ==> (match document.search {
            Some(table) => match table.result_limit {
                Some(limit) => settled.search.result_limit == limit,
                None => settled.search.result_limit@ == 10,
            },
            None => settled.search.result_limit@ == 10,
        }),
        cli.client matches Some(client) ==> settled.downloader.client == client,
        cli.client is None ==> (match document.downloader {
            Some(table) => settled.downloader.client == given_or(
                table.client,
                DownloaderPreference::Auto,
            ),
            None => settled.downloader.client == DownloaderPreference::Auto,
        }),
        cli.output matches Some(path) ==> settled.downloader.output_directory@ == path@,
        cli.headful ==> !settled.browser.headless,
{
}

/// Settings that pass the check stay within every hard limit.
pub proof fn valid_settings_are_bounded(c: AppConfig)
    requires
        config_fault(c) is None,
    ensures
        c.discovery.source_pages@.len() <= HARD_MAX_SOURCE_PAGES,
        c.discovery.max_source_pages@ <= HARD_MAX_SOURCE_PAGES,
        c.discovery.seed_candidates@.len() <= HARD_MAX_CANDIDATES,
        c.discovery.max_candidates@ <= HARD_MAX_CANDIDATES,
        c.search.result_limit@ <= HARD_MAX_RESULTS,
        c.search.max_title_characters@ <= HARD_MAX_TITLE_CHARACTERS,
        0 < c.browser.navigation_timeout_seconds <= c.browser.overall_timeout_seconds,
        0 < c.browser.selector_timeout_seconds <= c.browser.overall_timeout_seconds,
        c.browser.overall_timeout_seconds <= HARD_MAX_BROWSER_TIMEOUT_SECONDS,
        !c.downloader.seed_after_completion,
{
}

} // verus!
