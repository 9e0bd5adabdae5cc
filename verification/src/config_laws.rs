//! Laws of settings: what goes before what, what is refused and why, and where
//! settings are kept.

use crate::cli::Cli;
use crate::config;
use crate::config::{
    AppConfig, BaseVariable, BrowserConfig, ConfigDocument, ConfigError, ConfigPaths,
    DiscoveryConfig, DownloaderPreference, EnvironmentModel, FileCreation, LoadFailure,
    LoadedConfig,
};
use crate::paths;
use crate::weburl;
use vstd::prelude::*;

verus! {

// ------------------------------------------------------------------ precedence

/// A setting of a file: the one that its table gives, or else the one that was
/// there.
pub open spec fn settled<T>(given: Option<Option<T>>, there: T, after: T) -> bool {
    match given {
        Some(Some(value)) => after == value,
        _ => after == there,
    }
}

/// Every setting that a file gives is taken over, each in its own place, and every
/// other stays.
pub proof fn files_settle_what_they_give(c: AppConfig, d: ConfigDocument)
    ensures
        ({
            let after = config::with_document(c, d);
            &&& match d.discovery {
                None => after.discovery == c.discovery,
                Some(t) => {
                    &&& settled(Some(t.source_pages), c.discovery.source_pages, after.discovery.source_pages)
                    &&& settled(
                        Some(t.seed_candidates),
                        c.discovery.seed_candidates,
                        after.discovery.seed_candidates,
                    )
                    &&& settled(
                        Some(t.max_source_pages),
                        c.discovery.max_source_pages,
                        after.discovery.max_source_pages,
                    )
                    &&& settled(
                        Some(t.max_candidates),
                        c.discovery.max_candidates,
                        after.discovery.max_candidates,
                    )
                    &&& settled(
                        Some(t.cache_ttl_seconds),
                        c.discovery.cache_ttl_seconds,
                        after.discovery.cache_ttl_seconds,
                    )
                },
            }
            &&& match d.browser {
                None => after.browser == c.browser,
                Some(t) => {
                    &&& after.browser.executable == (if t.executable is Some {
                        t.executable
                    } else {
                        c.browser.executable
                    })
                    &&& settled(Some(t.headless), c.browser.headless, after.browser.headless)
                    &&& settled(
                        Some(t.navigation_timeout_seconds),
                        c.browser.navigation_timeout_seconds,
                        after.browser.navigation_timeout_seconds,
                    )
                    &&& settled(
                        Some(t.selector_timeout_seconds),
                        c.browser.selector_timeout_seconds,
                        after.browser.selector_timeout_seconds,
                    )
                    &&& settled(
                        Some(t.overall_timeout_seconds),
                        c.browser.overall_timeout_seconds,
                        after.browser.overall_timeout_seconds,
                    )
                },
            }
            &&& match d.search {
                None => after.search == c.search,
                Some(t) => {
                    &&& settled(Some(t.result_limit), c.search.result_limit, after.search.result_limit)
                    &&& settled(
                        Some(t.max_title_characters),
                        c.search.max_title_characters,
                        after.search.max_title_characters,
                    )
                },
            }
            &&& match d.downloader {
                None => after.downloader == c.downloader,
                Some(t) => {
                    &&& settled(Some(t.client), c.downloader.client, after.downloader.client)
                    &&& settled(
                        Some(t.output_directory),
                        c.downloader.output_directory,
                        after.downloader.output_directory,
                    )
                    &&& settled(
                        Some(t.seed_after_completion),
                        c.downloader.seed_after_completion,
                        after.downloader.seed_after_completion,
                    )
                },
            }
        }),
{
}

/// What the command line gives goes before all else, and it touches nothing else:
/// the directory, the number of results, the client, and that the window is shown.
pub proof fn the_command_line_goes_first(before: AppConfig, cli: Cli, after: AppConfig)
    requires
        config::matches_cli(before, cli, after),
    ensures
        after.discovery == before.discovery,
        after.browser.executable == before.browser.executable,
        after.browser.navigation_timeout_seconds == before.browser.navigation_timeout_seconds,
        after.browser.selector_timeout_seconds == before.browser.selector_timeout_seconds,
        after.browser.overall_timeout_seconds == before.browser.overall_timeout_seconds,
        cli.headful ==> !after.browser.headless,
        !cli.headful ==> after.browser.headless == before.browser.headless,
        match cli.results {
            Some(limit) => after.search.result_limit == limit,
            None => after.search.result_limit == before.search.result_limit,
        },
        after.search.max_title_characters == before.search.max_title_characters,
        match cli.client {
            Some(client) => after.downloader.client == client,
            None => after.downloader.client == before.downloader.client,
        },
        match cli.output {
            Some(path) => after.downloader.output_directory@ == path@,
            None => after.downloader.output_directory@ == before.downloader.output_directory@,
        },
        after.downloader.seed_after_completion == before.downloader.seed_after_completion,
{
}

/// The settings where nothing is given: two source pages and no seeds, four pages
/// and 24 candidates at most, six hours of freshness; a hidden browser that is given
/// 15, 10 and 90 seconds; ten results with titles of 120 characters; any client, the
/// current directory, and no seeding.
pub proof fn defaults_are_as_documented(c: AppConfig)
    requires
        config::is_default(c),
    ensures
        weburl::url_views(c.discovery.source_pages@).len() <= 2,
        forall|url: weburl::UrlModel|
            weburl::url_views(c.discovery.source_pages@).contains(url) ==> weburl::url_parse(
                "https://piratebayproxy.info/"@,
            ) == Some(url) || weburl::url_parse(
                "https://techpp.com/2023/02/17/the-pirate-bay-proxy-list/"@,
            ) == Some(url),
        c.discovery.seed_candidates@.len() == 0,
        c.discovery.max_source_pages@ == 4,
        c.discovery.max_candidates@ == 24,
        c.discovery.cache_ttl_seconds == 6 * 60 * 60,
        c.browser.executable is None,
        c.browser.headless,
        c.browser.navigation_timeout_seconds == 15,
        c.browser.selector_timeout_seconds == 10,
        c.browser.overall_timeout_seconds == 90,
        c.search.result_limit@ == 10,
        c.search.max_title_characters@ == 120,
        c.downloader.client == DownloaderPreference::Auto,
        c.downloader.output_directory@ == vstd::utf8::encode_utf8("."@),
        !c.downloader.seed_after_completion,
{
    let pages = config::built_in_pages();
    let one = pages.drop_last();
    let none = one.drop_last();
    assert(config::parsed(none) =~= Seq::empty());
    assert(one.last() == pages[0]);
    assert(config::parsed(one) =~= match weburl::url_parse(pages[0]) {
        Some(url) => seq![url],
        None => Seq::empty(),
    });
}

// ------------------------------------------------------------------ validation

/// What is wrong with an address of a page or a seed: first its scheme, then that
/// it has credentials, then that it has no host.
pub open spec fn is_wrong_with(url: weburl::UrlModel, error: ConfigError) -> bool {
    let web = url.scheme == "http"@ || url.scheme == "https"@;
    let open = url.username.len() == 0 && url.password is None;
    match error {
        ConfigError::EntryScheme => !web,
        ConfigError::EntryCredentials => web && !open,
        ConfigError::EntryHost => web && open && url.host_text is None,
        _ => false,
    }
}

/// Nothing is wrong with an address.
pub open spec fn is_right(url: weburl::UrlModel) -> bool {
    (url.scheme == "http"@ || url.scheme == "https"@) && url.username.len() == 0 && url.password
        is None && url.host_text is Some
}

/// An address is refused for the first thing that is wrong with it.
pub proof fn addresses_are_refused_for_what_is_wrong(url: weburl::UrlModel)
    ensures
        match config::entry_fault(url) {
            Some(error) => is_wrong_with(url, error),
            None => is_right(url),
        },
{
    assert(url.username.len() == 0 <==> url.username =~= Seq::empty());
}

proof fn first_wrong_entry(urls: Seq<weburl::UrlModel>, at: int)
    requires
        0 <= at < urls.len(),
        !is_right(urls[at]),
        forall|i: int| 0 <= i < at ==> is_right(#[trigger] urls[i]),
    ensures
        config::first_entry_fault(urls) matches Some(error) && is_wrong_with(urls[at], error),
    decreases at,
{
    addresses_are_refused_for_what_is_wrong(urls[0]);
    if at > 0 {
        assert(is_right(urls[0]));
        let rest = urls.drop_first();
        assert(rest[at - 1] == urls[at]);
        assert forall|i: int| 0 <= i < at - 1 implies is_right(#[trigger] rest[i]) by {
            assert(rest[i] == urls[i + 1]);
        }
        first_wrong_entry(rest, at - 1);
    }
}

proof fn no_wrong_entry(urls: Seq<weburl::UrlModel>)
    requires
        forall|i: int| 0 <= i < urls.len() ==> is_right(#[trigger] urls[i]),
    ensures
        config::first_entry_fault(urls) is None,
    decreases urls.len(),
{
    if urls.len() > 0 {
        addresses_are_refused_for_what_is_wrong(urls[0]);
        assert(is_right(urls[0]));
        let rest = urls.drop_first();
        assert forall|i: int| 0 <= i < rest.len() implies is_right(#[trigger] rest[i]) by {
            assert(rest[i] == urls[i + 1]);
        }
        no_wrong_entry(rest);
    }
}

/// The addresses of the source pages, and then those of the seeds.
pub open spec fn addresses(c: DiscoveryConfig) -> Seq<weburl::UrlModel> {
    weburl::url_views(c.source_pages@) + weburl::url_views(c.seed_candidates@)
}

/// Settings without a page and a seed are refused, and else the first address with
/// which something is wrong.
pub proof fn wrong_addresses_are_refused(c: AppConfig, at: int)
    requires
        0 <= at < addresses(c.discovery).len(),
        !is_right(addresses(c.discovery)[at]),
        forall|i: int| 0 <= i < at ==> is_right(#[trigger] addresses(c.discovery)[i]),
    ensures
        config::config_fault(c) matches Some(error) && is_wrong_with(
            addresses(c.discovery)[at],
            error,
        ),
{
    first_wrong_entry(addresses(c.discovery), at);
}

/// All addresses are there and right.
pub open spec fn has_right_addresses(c: DiscoveryConfig) -> bool {
    addresses(c).len() > 0 && forall|i: int|
        0 <= i < addresses(c).len() ==> is_right(#[trigger] addresses(c)[i])
}

/// All timeouts are given, no part is longer than the whole, and the whole is no
/// longer than five minutes.
pub open spec fn has_right_timeouts(c: BrowserConfig) -> bool {
    &&& 0 < c.navigation_timeout_seconds <= c.overall_timeout_seconds
    &&& 0 < c.selector_timeout_seconds <= c.overall_timeout_seconds
    &&& c.overall_timeout_seconds <= 300
}

/// No more than 8 pages and 64 candidates are asked for or given.
pub open spec fn has_right_limits(c: DiscoveryConfig) -> bool {
    c.max_source_pages@ <= 8 && c.max_candidates@ <= 64 && c.source_pages@.len() <= 8
        && c.seed_candidates@.len() <= 64
}

/// Why settings with right addresses are refused, in this order: a timeout of zero,
/// a part that is longer than the whole, a whole longer than five minutes, limits of
/// discovery, limits of the search, and seeding; without any of these they are fit.
pub proof fn settings_are_refused_for_what_is_wrong(c: AppConfig)
    ensures
        addresses(c.discovery).len() == 0 ==> config::config_fault(c) == Some(
            ConfigError::NoDiscoveryEntry,
        ),
        has_right_addresses(c.discovery) ==> {
            let b = c.browser;
            let zero = b.navigation_timeout_seconds == 0 || b.selector_timeout_seconds == 0
                || b.overall_timeout_seconds == 0;
            let order = b.navigation_timeout_seconds > b.overall_timeout_seconds
                || b.selector_timeout_seconds > b.overall_timeout_seconds;
            let shown = c.search.result_limit@ <= 500 && c.search.max_title_characters@ <= 512;
            &&& zero ==> config::config_fault(c) == Some(ConfigError::ZeroTimeout)
            &&& !zero && order ==> config::config_fault(c) == Some(ConfigError::TimeoutOrder)
            &&& !zero && !order && b.overall_timeout_seconds > 300 ==> config::config_fault(c)
                == Some(ConfigError::OverallTimeout)
            &&& has_right_timeouts(b) && !has_right_limits(c.discovery) ==> config::config_fault(c)
                == Some(ConfigError::DiscoveryLimits)
            &&& has_right_timeouts(b) && has_right_limits(c.discovery) && !shown
                ==> config::config_fault(c) == Some(ConfigError::SearchLimits)
            &&& has_right_timeouts(b) && has_right_limits(c.discovery) && shown
                && c.downloader.seed_after_completion ==> config::config_fault(c) == Some(
                ConfigError::Seeding,
            )
            &&& has_right_timeouts(b) && has_right_limits(c.discovery) && shown
                && !c.downloader.seed_after_completion ==> config::config_fault(c) is None
        },
{
    if has_right_addresses(c.discovery) {
        no_wrong_entry(addresses(c.discovery));
    }
}

// ---------------------------------------------------------------------- places

/// A path that begins with a slash.
pub open spec fn begins_with_slash(path: Seq<u8>) -> bool {
    path.len() > 0 && path[0] == 0x2f
}

/// Where a base directory is: at the variable, if it is set and not empty; else
/// below the home directory. Both must begin with a slash.
pub proof fn base_directories_are_absolute(
    value: Option<Seq<u8>>,
    home: Option<Seq<u8>>,
    fallback: Seq<u8>,
    variable: BaseVariable,
)
    ensures
        ({
            let set = value is Some && value->0.len() > 0;
            let at_home = home is Some && home->0.len() > 0;
            let found = config::base_directory(value, home, fallback, variable);
            &&& set && begins_with_slash(value->0) ==> found == Ok::<Seq<u8>, ConfigError>(value->0)
            &&& set && !begins_with_slash(value->0) ==> found == Err::<Seq<u8>, ConfigError>(
                ConfigError::RelativeBase(variable),
            )
            &&& !set && at_home && begins_with_slash(home->0) ==> found == Ok::<
                Seq<u8>,
                ConfigError,
            >(paths::joined(home->0, fallback))
            &&& !set && at_home && !begins_with_slash(home->0) ==> found == Err::<
                Seq<u8>,
                ConfigError,
            >(ConfigError::RelativeHome)
            &&& !set && !at_home ==> found == Err::<Seq<u8>, ConfigError>(
                ConfigError::HomeUnset(variable),
            )
        }),
{
}

/// Where the settings and the cache are: a chosen file as it is or below the current
/// directory; else `pbtdl/pbtdl.toml` below the configuration directory, which is
/// `.config` at home; and `pbtdl` below the cache directory, which is `.cache` at
/// home.
pub proof fn settings_have_their_place(
    chosen: Option<Seq<u8>>,
    environment: EnvironmentModel,
    current: Option<Seq<u8>>,
)
    ensures
        match chosen {
            Some(path) => if begins_with_slash(path) {
                config::config_file_path(chosen, environment, current) == Ok::<
                    Seq<u8>,
                    ConfigError,
                >(path)
            } else {
                match current {
                    Some(directory) => config::config_file_path(chosen, environment, current)
                        == Ok::<Seq<u8>, ConfigError>(paths::joined(directory, path)),
                    None => config::config_file_path(chosen, environment, current) == Err::<
                        Seq<u8>,
                        ConfigError,
                    >(ConfigError::NoCurrentDirectory),
                }
            },
            None => match config::base_directory(
                environment.config_home,
                environment.home,
                vstd::utf8::encode_utf8(".config"@),
                BaseVariable::ConfigHome,
            ) {
                Ok(base) => config::config_file_path(chosen, environment, current) == Ok::<
                    Seq<u8>,
                    ConfigError,
                >(paths::joined(base, vstd::utf8::encode_utf8("pbtdl/pbtdl.toml"@))),
                Err(error) => config::config_file_path(chosen, environment, current) == Err::<
                    Seq<u8>,
                    ConfigError,
                >(error),
            },
        },
        match config::base_directory(
            environment.cache_home,
            environment.home,
            vstd::utf8::encode_utf8(".cache"@),
            BaseVariable::CacheHome,
        ) {
            Ok(base) => config::cache_path(environment) == Ok::<Seq<u8>, ConfigError>(
                paths::joined(base, vstd::utf8::encode_utf8("pbtdl"@)),
            ),
            Err(error) => config::cache_path(environment) == Err::<Seq<u8>, ConfigError>(error),
        },
{
}

/// A path below a directory: one slash between the two, none where the directory is
/// empty or ends in one, and a path that begins with a slash stands for itself.
pub proof fn paths_are_joined(base: Seq<u8>, tail: Seq<u8>)
    ensures
        begins_with_slash(tail) ==> paths::joined(base, tail) == tail,
        !begins_with_slash(tail) && base.len() == 0 ==> paths::joined(base, tail) == tail,
        !begins_with_slash(tail) && base.len() > 0 && base.last() == 0x2f ==> paths::joined(
            base,
            tail,
        ) == base + tail,
        !begins_with_slash(tail) && base.len() > 0 && base.last() != 0x2f ==> paths::joined(
            base,
            tail,
        ) == base + seq![0x2fu8] + tail,
{
    assert(base.len() == 0 ==> base + tail =~= tail);
    assert(base.push(0x2f) + tail =~= base + seq![0x2fu8] + tail);
}

// ---------------------------------------------------------------------- loading

/// Only files of the first version are read; any other is refused for its version,
/// whatever else it holds.
pub proof fn other_schemas_are_refused(
    document: ConfigDocument,
    error: ConfigError,
    loaded: LoadedConfig,
    places: ConfigPaths,
    created: bool,
)
    ensures
        document.schema_version != 1 ==> {
            &&& config::is_refused(document, error) <==> error == ConfigError::UnsupportedSchema(
                document.schema_version,
            )
            &&& !config::is_loaded(loaded, document, places, created)
        },
        document.schema_version == 1 ==> {
            &&& config::is_refused(document, error) ==> exists|base: AppConfig| #[trigger]
                config::is_default(base) && config::config_fault(
                    config::with_document(base, document),
                ) == Some(error)
            &&& config::is_loaded(loaded, document, places, created) ==> {
                &&& loaded.paths == places
                &&& loaded.created == created
                &&& config::config_fault(loaded.config) is None
                &&& exists|base: AppConfig| #[trigger]
                    config::is_default(base) && loaded.config == config::with_document(
                        base,
                        document,
                    )
            }
        },
{
}

/// The first byte of a file stands on its first line, and each line feed before a
/// byte puts it one line further.
pub proof fn line_feeds_begin_lines(bytes: Seq<u8>, offset: nat)
    ensures
        config::line_at(bytes, 0) == 1,
        offset < bytes.len() ==> config::line_at(bytes, offset + 1) == config::line_at(
            bytes,
            offset,
        ) + (if bytes[offset as int] == 10 {
            1int
        } else {
            0
        }),
        offset >= bytes.len() ==> config::line_at(bytes, offset + 1) == config::line_at(
            bytes,
            offset,
        ),
{
    assert(bytes.take(0) =~= Seq::empty());
    if offset < bytes.len() {
        assert(bytes.take(offset as int + 1).drop_last() =~= bytes.take(offset as int));
        if offset + 1 == bytes.len() {
            assert(bytes.take(bytes.len() as int) =~= bytes.take(offset as int + 1));
        }
    }
}

/// What an attempt to create the file means: one that is there already is no
/// failure, and a new one must be written and synced.
pub proof fn new_files_are_written_and_synced(creation: FileCreation)
    ensures
        match creation {
            FileCreation::Exists => config::creation_outcome(creation) == Ok::<bool, LoadFailure>(
                false,
            ),
            FileCreation::Opened { written, synced } => {
                &&& written && synced ==> config::creation_outcome(creation) == Ok::<
                    bool,
                    LoadFailure,
                >(true)
                &&& !written ==> config::creation_outcome(creation) == Err::<bool, LoadFailure>(
                    LoadFailure::NotWritten,
                )
                &&& written && !synced ==> config::creation_outcome(creation) == Err::<
                    bool,
                    LoadFailure,
                >(LoadFailure::NotSynced)
            },
            FileCreation::NoDirectory(directory) => config::creation_outcome(creation) == Err::<
                bool,
                LoadFailure,
            >(LoadFailure::DirectoryNotCreated(directory)),
            FileCreation::Failed => config::creation_outcome(creation) == Err::<bool, LoadFailure>(
                LoadFailure::NotCreated,
            ),
        },
{
}

} // verus!
