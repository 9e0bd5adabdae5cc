//! Laws of the browser: which addresses may be opened, how far a page may go, and
//! what opening a page and sending a query come to.

use crate::browser;
use crate::browser::{BrowserFault, IpAddress, Lookup, OperationFailure, PageInfo, PreflightModel};
use crate::discovery;
use crate::paths;
use crate::plain;
use crate::session_run;
use crate::session_run::{
    LaunchEvent, LaunchModel, LaunchStage, NavigationActionModel, NavigationEvent, NavigationModel,
    NavigationStage,
};
use crate::submission_run;
use crate::submission_run::{
    SubmissionActionModel, SubmissionEvent, SubmissionModel, SubmissionStage,
};
use crate::text;
use crate::text::CharClass;
use crate::weburl;
use vstd::prelude::*;

verus! {

// -------------------------------------------------------------------- addresses

/// An IPv4 address as a number.
pub open spec fn ipv4_number(octets: Seq<u8>) -> int {
    ((octets[0] as int * 256 + octets[1] as int) * 256 + octets[2] as int) * 256 + octets[3] as int
}

/// An IPv4 address that is not on the public network: 0.0.0.0/8, 10.0.0.0/8,
/// 100.64.0.0/10, 127.0.0.0/8, 169.254.0.0/16, 172.16.0.0/12, 192.0.0.0/24,
/// 192.0.2.0/24, 192.168.0.0/16, 198.18.0.0/15, 198.51.100.0/24, 203.0.113.0/24, and
/// everything from 224.0.0.0 on.
pub open spec fn is_no_public_ipv4(octets: Seq<u8>) -> bool {
    let n = ipv4_number(octets);
    ||| 0x0000_0000 <= n <= 0x00ff_ffff
    ||| 0x0a00_0000 <= n <= 0x0aff_ffff
    ||| 0x6440_0000 <= n <= 0x647f_ffff
    ||| 0x7f00_0000 <= n <= 0x7fff_ffff
    ||| 0xa9fe_0000 <= n <= 0xa9fe_ffff
    ||| 0xac10_0000 <= n <= 0xac1f_ffff
    ||| 0xc000_0000 <= n <= 0xc000_00ff
    ||| 0xc000_0200 <= n <= 0xc000_02ff
    ||| 0xc0a8_0000 <= n <= 0xc0a8_ffff
    ||| 0xc612_0000 <= n <= 0xc613_ffff
    ||| 0xc633_6400 <= n <= 0xc633_64ff
    ||| 0xcb00_7100 <= n <= 0xcb00_71ff
    ||| 0xe000_0000 <= n
}

/// No page is loaded from an IPv4 address exactly if it is not on the public
/// network.
pub proof fn ipv4_addresses_must_be_public(octets: Seq<u8>)
    requires
        octets.len() == 4,
    ensures
        browser::is_disallowed_ipv4(octets) <==> is_no_public_ipv4(octets),
{
}

/// The first half of an IPv6 address as a number.
pub open spec fn ipv6_prefix(segments: Seq<u16>) -> int {
    ((segments[0] as int * 65536 + segments[1] as int) * 65536 + segments[2] as int) * 65536
        + segments[3] as int
}

/// The IPv4 address that two segments hold.
pub open spec fn ipv4_in(high: u16, low: u16) -> Seq<u8> {
    seq![(high / 256) as u8, (high % 256) as u8, (low / 256) as u8, (low % 256) as u8]
}

/// An IPv6 address in which an IPv4 address stands is refused exactly if that one
/// is: mapped and compatible addresses, translated ones, and those of 6to4.
pub proof fn addresses_within_addresses_count(segments: Seq<u16>)
    requires
        segments.len() == 8,
    ensures
        ipv6_prefix(segments) == 0 && segments[4] == 0 && (segments[5] == 0 || segments[5]
            == 0xffff) ==> (browser::is_disallowed_ipv6(segments) <==> is_no_public_ipv4(
            ipv4_in(segments[6], segments[7]),
        )),
        ipv6_prefix(segments) == 0x0064_ff9b_0000_0000 && segments[4] == 0 && segments[5] == 0 ==> (
        browser::is_disallowed_ipv6(segments) <==> is_no_public_ipv4(
            ipv4_in(segments[6], segments[7]),
        )),
        segments[0] == 0x2002 ==> (browser::is_disallowed_ipv6(segments) <==> is_no_public_ipv4(
            ipv4_in(segments[1], segments[2]),
        )),
{
    let last = ipv4_in(segments[6], segments[7]);
    let first = ipv4_in(segments[1], segments[2]);
    ipv4_addresses_must_be_public(last);
    ipv4_addresses_must_be_public(first);
    assert(browser::octets_at(segments, 6) =~= last);
    assert(browser::octets_at(segments, 1) =~= first);
    if ipv6_prefix(segments) == 0 {
        assert(segments[0] == 0 && segments[1] == 0 && segments[2] == 0 && segments[3] == 0);
        if segments[4] == 0 {
            assert(browser::leading_zeros(segments, 5));
        }
    }
    if ipv6_prefix(segments) == 0x0064_ff9b_0000_0000 {
        assert(segments[0] == 0x64 && segments[1] == 0xff9b && segments[2] == 0 && segments[3]
            == 0);
        assert(!browser::leading_zeros(segments, 5));
    }
    if segments[0] == 0x2002 {
        assert(!browser::leading_zeros(segments, 5));
    }
}

/// Any other IPv6 address is refused exactly if it is multicast (ff00::/8), unique
/// local (fc00::/7), link-local (fe80::/10), site-local (fec0::/10), for
/// documentation (2001:db8::/32, 3fff::/20), for local translation
/// (64:ff9b:1::/48), for discarding (100::/64), for protocols (2001::/23), or for
/// segment routing (5f00::/16).
pub proof fn ipv6_addresses_must_be_public(segments: Seq<u16>)
    requires
        segments.len() == 8,
        segments[0] != 0,
        segments[0] != 0x2002,
        ipv6_prefix(segments) != 0x0064_ff9b_0000_0000,
    ensures
        ({
            let p = ipv6_prefix(segments);
            browser::is_disallowed_ipv6(segments) <==> {
                ||| 0xff00_0000_0000_0000 <= p
                ||| 0xfc00_0000_0000_0000 <= p <= 0xfdff_ffff_ffff_ffff
                ||| 0xfe80_0000_0000_0000 <= p <= 0xfeff_ffff_ffff_ffff
                ||| 0x2001_0db8_0000_0000 <= p <= 0x2001_0db8_ffff_ffff
                ||| 0x3fff_0000_0000_0000 <= p <= 0x3fff_0fff_ffff_ffff
                ||| 0x0064_ff9b_0001_0000 <= p <= 0x0064_ff9b_0001_ffff
                ||| p == 0x0100_0000_0000_0000
                ||| 0x2001_0000_0000_0000 <= p <= 0x2001_01ff_ffff_ffff
                ||| 0x5f00_0000_0000_0000 <= p <= 0x5f00_ffff_ffff_ffff
            }
        }),
{
    assert(!browser::leading_zeros(segments, 5));
}

/// An address that a look-up gives is judged as what it is.
pub proof fn looked_up_addresses_are_judged(address: IpAddress)
    ensures
        match address {
            IpAddress::V4(octets) => browser::is_disallowed(address)
                <==> browser::is_disallowed_ipv4(octets@),
            IpAddress::V6(segments) => browser::is_disallowed(address)
                <==> browser::is_disallowed_ipv6(segments@),
        },
{
}

/// A look-up permits a host exactly if it gives addresses, and none of them is
/// refused; what it was is told otherwise.
pub proof fn look_ups_must_be_public(lookup: Lookup)
    ensures
        match lookup {
            Lookup::TimedOut => browser::lookup_outcome(lookup) == Err::<(), BrowserFault>(
                BrowserFault::Timeout("host resolution"@),
            ),
            Lookup::Failed => browser::lookup_outcome(lookup) == Err::<(), BrowserFault>(
                BrowserFault::NavigationRejected("destination host could not be resolved"@),
            ),
            Lookup::Found(addresses) => {
                &&& addresses@.len() == 0 ==> browser::lookup_outcome(lookup) == Err::<
                    (),
                    BrowserFault,
                >(BrowserFault::NavigationRejected("destination host resolved to no addresses"@))
                &&& addresses@.len() > 0 && (forall|i: int|
                    0 <= i < addresses@.len() ==> !browser::is_disallowed(
                        #[trigger] addresses@[i],
                    )) ==> browser::lookup_outcome(lookup) is Ok
                &&& (exists|i: int|
                    0 <= i < addresses@.len() && browser::is_disallowed(#[trigger] addresses@[i]))
                    ==> browser::lookup_outcome(lookup) == Err::<(), BrowserFault>(
                    BrowserFault::NavigationRejected(
                        "local, private, and reserved network destinations are not permitted"@,
                    ),
                )
            },
        },
{
    if let Lookup::Found(addresses) = lookup {
        if exists|i: int|
            0 <= i < addresses@.len() && browser::is_disallowed(#[trigger] addresses@[i]) {
            let i = choose|i: int|
                0 <= i < addresses@.len() && browser::is_disallowed(#[trigger] addresses@[i]);
            assert(browser::is_disallowed(addresses@[i]));
        }
    }
}

/// What is settled before any look-up: only web addresses without credentials and
/// with a host go on; where local pages are admitted these are allowed, and else an
/// address in numbers is allowed exactly if it is not refused.
pub proof fn addresses_are_judged_by_their_form(allow_local: bool, url: weburl::UrlModel)
    ensures
        ({
            let web = url.scheme == "http"@ || url.scheme == "https"@;
            let open = url.username.len() == 0 && url.password is None;
            let outcome = browser::preflight(allow_local, url);
            &&& !web ==> outcome == PreflightModel::Refused(
                BrowserFault::NavigationRejected("only HTTP and HTTPS are permitted"@),
            )
            &&& web && !open ==> outcome == PreflightModel::Refused(
                BrowserFault::NavigationRejected("URL credentials are not permitted"@),
            )
            &&& web && open && url.host is None ==> outcome == PreflightModel::Refused(
                BrowserFault::NavigationRejected("URL must contain a host"@),
            )
            &&& web && open && url.host is Some && allow_local ==> outcome
                == PreflightModel::Allowed
            &&& web && open && !allow_local ==> match url.host {
                Some(weburl::HostModel::Ipv4(octets)) => outcome == (
                if browser::is_disallowed_ipv4(octets) {
                    PreflightModel::Refused(
                        BrowserFault::NavigationRejected(
                            "local, private, and reserved network destinations are not permitted"@,
                        ),
                    )
                } else {
                    PreflightModel::Allowed
                }),
                Some(weburl::HostModel::Ipv6(segments)) => outcome == (
                if browser::is_disallowed_ipv6(segments) {
                    PreflightModel::Refused(
                        BrowserFault::NavigationRejected(
                            "local, private, and reserved network destinations are not permitted"@,
                        ),
                    )
                } else {
                    PreflightModel::Allowed
                }),
                _ => true,
            }
        }),
{
    assert(url.username.len() == 0 <==> url.username =~= Seq::empty());
}

proof fn trailing_dots_go(stem: Seq<char>, dots: Seq<char>)
    requires
        forall|i: int| 0 <= i < dots.len() ==> #[trigger] dots[i] == '.',
        stem.len() > 0 ==> stem.last() != '.',
    ensures
        text::strip_end(stem + dots, CharClass::Dot) == stem,
    decreases dots.len(),
{
    let whole = stem + dots;
    if dots.len() == 0 {
        assert(whole =~= stem);
    } else {
        assert(whole.last() == dots[dots.len() - 1]);
        assert(whole.drop_last() =~= stem + dots.drop_last());
        trailing_dots_go(stem, dots.drop_last());
    }
}

/// A text ends in a word, in any case.
pub open spec fn ends_in(value: Seq<char>, word: Seq<char>) -> bool {
    word.len() <= value.len() && plain::stands(word, value, value.len() - word.len())
}

/// A host name, whatever full stops stand behind it: `localhost` and what ends in
/// `.localhost` are refused, in any case; any other is looked up in small letters
/// and without the full stops, with the port of the URL.
pub proof fn names_of_this_machine_are_refused(
    url: weburl::UrlModel,
    stem: Seq<char>,
    dots: Seq<char>,
)
    requires
        url.scheme == "http"@ || url.scheme == "https"@,
        url.username.len() == 0,
        url.password is None,
        url.host == Some(weburl::HostModel::Domain(stem + dots)),
        forall|i: int| 0 <= i < dots.len() ==> #[trigger] dots[i] == '.',
        stem.len() > 0 ==> stem.last() != '.',
    ensures
        plain::same_word(stem, "localhost"@) || ends_in(stem, ".localhost"@) ==> browser::preflight(
            false,
            url,
        ) == PreflightModel::Refused(
            BrowserFault::NavigationRejected("loopback destinations are not permitted"@),
        ),
        !plain::same_word(stem, "localhost"@) && !ends_in(stem, ".localhost"@) ==> match url.port {
            None => browser::preflight(false, url) == PreflightModel::Refused(
                BrowserFault::NavigationRejected("URL has no usable port"@),
            ),
            Some(port) => browser::preflight(false, url) matches PreflightModel::Resolve(host, wanted)
                && wanted == port && plain::same_word(host, stem) && plain::is_small(host),
        },
{
    trailing_dots_go(stem, dots);
    assert(url.username =~= Seq::empty());
    let name = text::lower(stem);
    reveal_strlit("localhost");
    reveal_strlit(".localhost");
    plain::small_words_stay("localhost"@);
    plain::same_words_lower_alike(stem, "localhost"@);
    let tail = ".localhost"@;
    let at = stem.len() - tail.len();
    if at >= 0 {
        if browser::ends_with(name, tail) {
            assert forall|i: int| 0 <= i < tail.len() implies plain::same_letter(
                #[trigger] tail[i],
                stem[at + i],
            ) by {
                assert(name.skip(at)[i] == tail[i]);
            }
        }
        if ends_in(stem, tail) {
            assert(name.skip(at) =~= tail) by {
                assert forall|i: int| 0 <= i < tail.len() implies name.skip(at)[i] == tail[i] by {
                    assert(plain::same_letter(tail[i], stem[at + i]));
                }
            }
        }
    }
    assert(plain::is_small(name));
    assert(plain::same_word(name, stem));
}

/// What the policy says: what was settled before the look-up stands, and a name is
/// as good as what it resolves to.
pub proof fn policies_follow_the_look_up(allow_local: bool, url: weburl::UrlModel, lookup: Lookup)
    ensures
        match browser::preflight(allow_local, url) {
            PreflightModel::Allowed => browser::policy_outcome(allow_local, url, lookup) is Ok,
            PreflightModel::Refused(fault) => browser::policy_outcome(allow_local, url, lookup)
                == Err::<(), BrowserFault>(fault),
            PreflightModel::Resolve(_, _) => browser::policy_outcome(allow_local, url, lookup)
                == browser::lookup_outcome(lookup),
        },
{
}

// ---------------------------------------------------------------------- limits

/// A page may take five redirects, and not a sixth, whatever its address; a refused
/// address ends it, and a request that is no redirect costs none.
pub proof fn five_redirects_are_followed(
    hops: usize,
    redirected: bool,
    verdict: Result<(), BrowserFault>,
)
    ensures
        redirected && hops >= 5 ==> browser::hop_outcome(hops, redirected, verdict) == Err::<
            usize,
            BrowserFault,
        >(BrowserFault::TooManyRedirects(5)),
        !(redirected && hops >= 5) && verdict is Err ==> browser::hop_outcome(
            hops,
            redirected,
            verdict,
        ) == Err::<usize, BrowserFault>(verdict->Err_0),
        redirected && hops < 5 && verdict is Ok ==> browser::hop_outcome(hops, redirected, verdict)
            == Ok::<usize, BrowserFault>((hops + 1) as usize),
        !redirected && verdict is Ok ==> browser::hop_outcome(hops, redirected, verdict) == Ok::<
            usize,
            BrowserFault,
        >(hops),
{
}

/// A document of up to 2 MiB is taken, and a larger one is not; a query of up to 512
/// characters and 2048 bytes is sent, and a longer one is not.
pub proof fn sizes_are_limited(html: Seq<char>, query: Seq<char>)
    ensures
        browser::size_outcome(html) is Ok <==> vstd::utf8::encode_utf8(html).len() <= 2 * 1024
            * 1024,
        browser::size_outcome(html) is Err ==> browser::size_outcome(html) == Err::<
            (),
            BrowserFault,
        >(BrowserFault::NavigationRejected("rendered document exceeds the size limit"@)),
        browser::query_fits(query) <==> query.len() <= 512 && vstd::utf8::encode_utf8(query).len()
            <= 2048,
{
}

/// An operation may take what is left of the session, and no longer than one
/// navigation; where nothing is left it times out.
pub proof fn operations_are_timed(remaining: u128, navigation: u128, stage: Seq<char>)
    ensures
        match browser::time_allowed(remaining, navigation, stage) {
            Ok(limit) => remaining > 0 && limit <= remaining && limit <= navigation && (limit
                == remaining || limit == navigation),
            Err(fault) => remaining == 0 && fault == BrowserFault::Timeout(stage),
        },
{
}

/// A page beside the active one is unexpected unless the browser opened it itself or
/// it is a blank one that no page opened.
pub proof fn other_windows_are_unexpected(
    active: Seq<char>,
    initial: Seq<Seq<char>>,
    pages: Seq<PageInfo>,
)
    ensures
        browser::windows_outcome(active, initial, pages) is Ok <==> forall|i: int|
            0 <= i < pages.len() ==> {
                let page = #[trigger] pages[i];
                ||| page.target@ == active
                ||| initial.contains(page.target@)
                ||| !page.has_opener && (text::opt_view(page.address) == Some("about:blank"@)
                    || text::opt_view(page.address) == Some("chrome://newtab/"@))
            },
        browser::windows_outcome(active, initial, pages) is Err
            ==> browser::windows_outcome(active, initial, pages) == Err::<(), BrowserFault>(
            BrowserFault::UnexpectedWindow,
        ),
{
}

// ----------------------------------------------------------------- executables

proof fn files_by_name(directories: Seq<Seq<u8>>, names: Seq<Seq<u8>>, k: int, d: int)
    requires
        0 <= k < names.len(),
        0 <= d < directories.len(),
    ensures
        browser::each_in_each(directories, names).len() == names.len() * directories.len(),
        0 <= k * directories.len() + d < names.len() * directories.len(),
        browser::each_in_each(directories, names)[k * directories.len() + d] == paths::joined(
            directories[d],
            names[k],
        ),
    decreases names.len(),
{
    let rest = names.drop_last();
    let size = directories.len() as int;
    let before = browser::each_in_each(directories, rest);
    let count = names.len() as int;
    assert(before.len() == (count - 1) * size) by {
        if rest.len() > 0 {
            files_by_name(directories, rest, 0, d);
        } else {
            assert(before.len() == 0);
            assert(0 * size == 0) by (nonlinear_arith);
        }
    }
    assert(count * size == (count - 1) * size + size && 0 <= k * size + d < count * size)
        by (nonlinear_arith)
        requires
            0 <= k < count,
            0 <= d < size,
    ;
    if k < count - 1 {
        files_by_name(directories, rest, k, d);
        assert(k * size + d < (count - 1) * size) by (nonlinear_arith)
            requires
                0 <= k < count - 1,
                0 <= d < size,
        ;
    }
}

/// Where the browser is looked for without a setting: at its usual places first,
/// then by each of its names on the search path.
pub proof fn browsers_are_looked_for(directories: Seq<Seq<u8>>, d: int)
    requires
        0 <= d < directories.len(),
    ensures
        ({
            let files = browser::candidates(None, browser::common_paths(), directories);
            let size = directories.len() as int;
            &&& files.len() == 5 + 4 * size
            &&& files[0] == vstd::utf8::encode_utf8("/usr/bin/google-chrome"@)
            &&& files[1] == vstd::utf8::encode_utf8("/usr/bin/google-chrome-stable"@)
            &&& files[2] == vstd::utf8::encode_utf8("/usr/bin/chromium"@)
            &&& files[3] == vstd::utf8::encode_utf8("/usr/bin/chromium-browser"@)
            &&& files[4] == vstd::utf8::encode_utf8("/snap/bin/chromium"@)
            &&& files[5 + d] == paths::joined(
                directories[d],
                vstd::utf8::encode_utf8("google-chrome"@),
            )
            &&& files[5 + size + d] == paths::joined(
                directories[d],
                vstd::utf8::encode_utf8("google-chrome-stable"@),
            )
            &&& files[5 + 2 * size + d] == paths::joined(
                directories[d],
                vstd::utf8::encode_utf8("chromium"@),
            )
            &&& files[5 + 3 * size + d] == paths::joined(
                directories[d],
                vstd::utf8::encode_utf8("chromium-browser"@),
            )
        }),
{
    let names = browser::browser_names();
    let size = directories.len() as int;
    files_by_name(directories, names, 0, d);
    files_by_name(directories, names, 1, d);
    files_by_name(directories, names, 2, d);
    files_by_name(directories, names, 3, d);
    assert(0 * size == 0 && 1 * size == size) by (nonlinear_arith);
}

/// A configured browser stands alone, unless it is a mere name: that one is looked
/// for on the search path first.
pub proof fn configured_browsers_are_looked_for(path: Seq<u8>, directories: Seq<Seq<u8>>, d: int)
    requires
        0 <= d < directories.len(),
    ensures
        paths::component_count(path) != 1 ==> browser::candidates(
            Some(path),
            browser::common_paths(),
            directories,
        ) == seq![path],
        paths::component_count(path) == 1 ==> {
            let files = browser::candidates(Some(path), browser::common_paths(), directories);
            &&& files.len() == directories.len() + 1
            &&& files[d] == paths::joined(directories[d], path)
            &&& files.last() == path
        },
{
}

/// The first file that is executable is the one that is used.
pub proof fn the_first_executable_is_used(files: Seq<Seq<u8>>, marks: Seq<bool>, at: int)
    requires
        files.len() == marks.len(),
        0 <= at <= files.len(),
        forall|i: int| 0 <= i < at ==> !#[trigger] marks[i],
    ensures
        at < files.len() && marks[at] ==> browser::first_marked(files, marks) == Some(files[at]),
        at == files.len() ==> browser::first_marked(files, marks) is None,
    decreases at,
{
    if at > 0 {
        assert(!marks[0]);
        let rest = marks.drop_first();
        assert forall|i: int| 0 <= i < at - 1 implies !#[trigger] rest[i] by {
            assert(rest[i] == marks[i + 1]);
        }
        the_first_executable_is_used(files.drop_first(), rest, at - 1);
    }
}

/// The browser is started without component updates, reliability reports,
/// notifications, password bubbles and the check for the default browser, and with
/// nothing else.
pub proof fn browsers_start_quietly()
    ensures
        browser::launch_switches() == seq![
            "--disable-component-update"@,
            "--disable-domain-reliability"@,
            "--disable-notifications"@,
            "--disable-save-password-bubble"@,
            "--no-default-browser-check"@,
        ],
{
}

// ------------------------------------------------------------------ whole pages

/// Opening a page in which nothing goes wrong: the browser runs, time is left, the
/// address is permitted, the page opens and goes there, no other window shows, it
/// ends at a permitted address, and what it holds is not too large. Then the
/// document with that address and those contents is the result.
pub proof fn good_pages_are_read(
    allow_local: bool,
    wanted: weburl::UrlModel,
    timeout: u128,
    initial: Seq<Seq<char>>,
    remaining: u128,
    first: Lookup,
    windows: (String, Vec<PageInfo>),
    reported: String,
    ended: weburl::UrlModel,
    second: Lookup,
    html: String,
)
    requires
        remaining > 0,
        browser::policy_outcome(allow_local, wanted, first) is Ok,
        browser::windows_outcome(windows.0@, initial, windows.1@) is Ok,
        weburl::url_parse(reported@) == Some(ended),
        browser::policy_outcome(allow_local, ended, second) is Ok,
        vstd::utf8::encode_utf8(html@).len() <= 2 * 1024 * 1024,
    ensures
        contents_taken(
            address_taken(
                page_opened(
                    session_run::navigation_started(allow_local, wanted, timeout, initial),
                    remaining,
                    first,
                ),
                remaining,
                windows,
                reported,
            ),
            remaining,
            second,
            html,
        ).result == Some(
            Ok::<browser::DocumentModel, BrowserFault>(
                browser::DocumentModel { url: ended, html: html@ },
            ),
        ),
{
    let start = session_run::navigation_started(allow_local, wanted, timeout, initial);
    pages_are_reached(start, remaining, first);
    let there = page_opened(start, remaining, first);
    pages_are_addressed(there, remaining, windows, reported, ended);
    let known = address_taken(there, remaining, windows, reported);
    contents_are_read(known, remaining, ended, second, html);
}

/// The first part of a reading: the browser runs, the address is looked up, a page is
/// opened and goes there.
#[verifier::opaque]
pub open spec fn page_opened(m: NavigationModel, remaining: u128, lookup: Lookup) -> NavigationModel {
    m.step(NavigationEvent::Running(true)).step(NavigationEvent::Remaining(remaining)).step(
        NavigationEvent::Looked(lookup),
    ).step(NavigationEvent::Opened(Ok(()))).step(NavigationEvent::Went(Ok(())))
}

/// The second part: the windows are told, and then the address.
#[verifier::opaque]
pub open spec fn address_taken(
    m: NavigationModel,
    remaining: u128,
    windows: (String, Vec<PageInfo>),
    reported: String,
) -> NavigationModel {
    m.step(NavigationEvent::Remaining(remaining)).step(NavigationEvent::Windows(Ok(windows))).step(
        NavigationEvent::Remaining(remaining),
    ).step(NavigationEvent::Addressed(Ok(Some(reported))))
}

/// The last part: the address is looked up, the contents are told, and the browser
/// still runs.
#[verifier::opaque]
pub open spec fn contents_taken(
    m: NavigationModel,
    remaining: u128,
    lookup: Lookup,
    html: String,
) -> NavigationModel {
    m.step(NavigationEvent::Looked(lookup)).step(NavigationEvent::Remaining(remaining)).step(
        NavigationEvent::Contents(Ok(html)),
    ).step(NavigationEvent::Running(true))
}

/// Two states of one reading: what it was asked for has not changed.
spec fn is_same_reading(m: NavigationModel, after: NavigationModel) -> bool {
    after.allow_local == m.allow_local && after.wanted == m.wanted && after.navigation_timeout
        == m.navigation_timeout && after.initial == m.initial
}

proof fn pages_are_reached(m: NavigationModel, remaining: u128, lookup: Lookup)
    requires
        m.stage == NavigationStage::Running,
        remaining > 0,
        m.wanted is Some,
        browser::policy_outcome(m.allow_local, m.wanted->0, lookup) is Ok,
    ensures
        ({
            let after = page_opened(m, remaining, lookup);
            after.stage == NavigationStage::WindowBudget && is_same_reading(m, after)
        }),
{
    reveal(page_opened);
    let a = m.step(NavigationEvent::Running(true));
    assert(a.stage == NavigationStage::Budget && is_same_reading(m, a));
    let b = a.step(NavigationEvent::Remaining(remaining));
    assert(b.stage == NavigationStage::Check && is_same_reading(m, b));
    let c = b.step(NavigationEvent::Looked(lookup));
    assert(c.stage == NavigationStage::Open && is_same_reading(m, c));
    let d = c.step(NavigationEvent::Opened(Ok(())));
    assert(d.stage == NavigationStage::Go && is_same_reading(m, d));
}

proof fn pages_are_addressed(
    m: NavigationModel,
    remaining: u128,
    windows: (String, Vec<PageInfo>),
    reported: String,
    ended: weburl::UrlModel,
)
    requires
        m.stage == NavigationStage::WindowBudget,
        remaining > 0,
        m.wanted is Some,
        browser::windows_outcome(windows.0@, m.initial, windows.1@) is Ok,
        weburl::url_parse(reported@) == Some(ended),
    ensures
        ({
            let after = address_taken(m, remaining, windows, reported);
            after.stage == NavigationStage::FinalCheck && after.found == Some(ended)
                && is_same_reading(m, after)
        }),
{
    reveal(address_taken);
    let a = m.step(NavigationEvent::Remaining(remaining));
    assert(a.stage == NavigationStage::Windows && is_same_reading(m, a));
    let b = a.step(NavigationEvent::Windows(Ok(windows)));
    assert(b.stage == NavigationStage::AddressBudget && is_same_reading(m, b));
    let c = b.step(NavigationEvent::Remaining(remaining));
    assert(c.stage == NavigationStage::Address && is_same_reading(m, c));
}

proof fn contents_are_read(
    m: NavigationModel,
    remaining: u128,
    ended: weburl::UrlModel,
    lookup: Lookup,
    html: String,
)
    requires
        m.stage == NavigationStage::FinalCheck,
        remaining > 0,
        m.wanted is Some,
        m.found == Some(ended),
        browser::policy_outcome(m.allow_local, ended, lookup) is Ok,
        vstd::utf8::encode_utf8(html@).len() <= 2 * 1024 * 1024,
    ensures
        contents_taken(m, remaining, lookup, html).result == Some(
            Ok::<browser::DocumentModel, BrowserFault>(
                browser::DocumentModel { url: ended, html: html@ },
            ),
        ),
{
    reveal(contents_taken);
    let a = m.step(NavigationEvent::Looked(lookup));
    assert(a.stage == NavigationStage::ContentBudget && a.found == m.found && a.wanted is Some);
    let b = a.step(NavigationEvent::Remaining(remaining));
    assert(b.stage == NavigationStage::Content && b.found == m.found && b.wanted is Some);
    let c = b.step(NavigationEvent::Contents(Ok(html)));
    assert(c.stage == NavigationStage::StillRunning && c.found == m.found && c.html == html@);
}

/// The reading is over with an error.
pub open spec fn reading_fails(after: NavigationModel, fault: BrowserFault) -> bool {
    after.result == Some(Err::<browser::DocumentModel, BrowserFault>(fault))
}

/// The page is closed, and then the error is given.
pub open spec fn page_is_dropped(after: NavigationModel, fault: BrowserFault) -> bool {
    session_run::navigation_action(after) == NavigationActionModel::ClosePage && reading_fails(
        after.step(NavigationEvent::Closed),
        fault,
    )
}

/// A browser that ended and an address that is refused are told as what they are,
/// before the page is opened as well as afterwards.
pub proof fn bad_addresses_are_told(m: NavigationModel, lookup: Lookup)
    requires
        m.is_sound(),
    ensures
        m.stage == NavigationStage::Running || m.stage == NavigationStage::StillRunning
            ==> reading_fails(
            m.step(NavigationEvent::Running(false)),
            BrowserFault::PrematureExit,
        ),
        m.stage == NavigationStage::Check ==> (browser::policy_outcome(
            m.allow_local,
            m.wanted->0,
            lookup,
        ) matches Err(fault) ==> reading_fails(m.step(NavigationEvent::Looked(lookup)), fault)),
        m.stage == NavigationStage::FinalCheck ==> (browser::policy_outcome(
            m.allow_local,
            m.found->0,
            lookup,
        ) matches Err(fault) ==> reading_fails(m.step(NavigationEvent::Looked(lookup)), fault)),
{
}

/// A page that cannot be made or reached is told as what it is; one that was on its
/// way is closed first.
pub proof fn unreachable_pages_are_told(m: NavigationModel, message: String)
    requires
        m.is_sound(),
    ensures
        m.stage == NavigationStage::Open ==> reading_fails(
            m.step(NavigationEvent::Opened(Err(OperationFailure::Failed(message)))),
            BrowserFault::Operation("page creation"@, message@),
        ) && reading_fails(
            m.step(NavigationEvent::Opened(Err(OperationFailure::TimedOut))),
            BrowserFault::Timeout("page creation"@),
        ),
        m.stage == NavigationStage::Go ==> page_is_dropped(
            m.step(NavigationEvent::Went(Err(OperationFailure::Failed(message)))),
            BrowserFault::Operation("navigation"@, message@),
        ) && page_is_dropped(
            m.step(NavigationEvent::Went(Err(OperationFailure::TimedOut))),
            BrowserFault::Timeout("navigation"@),
        ),
{
}

/// A read that fails, an address that is none, and a document that is too large are
/// told as what they are.
pub proof fn bad_contents_are_told(m: NavigationModel, message: String, html: String)
    requires
        m.is_sound(),
    ensures
        m.stage == NavigationStage::Address ==> reading_fails(
            m.step(NavigationEvent::Addressed(Err(OperationFailure::Failed(message)))),
            BrowserFault::Operation("URL read"@, message@),
        ) && reading_fails(
            m.step(NavigationEvent::Addressed(Ok(None))),
            BrowserFault::Operation("URL read"@, "page did not report a URL"@),
        ) && (weburl::url_parse(message@) is None ==> reading_fails(
            m.step(NavigationEvent::Addressed(Ok(Some(message)))),
            BrowserFault::NavigationRejected("browser returned a malformed URL"@),
        )),
        m.stage == NavigationStage::Content ==> reading_fails(
            m.step(NavigationEvent::Contents(Err(OperationFailure::Failed(message)))),
            BrowserFault::Operation("document read"@, message@),
        ) && (vstd::utf8::encode_utf8(html@).len() > 2 * 1024 * 1024 ==> reading_fails(
            m.step(NavigationEvent::Contents(Ok(html))),
            BrowserFault::NavigationRejected("rendered document exceeds the size limit"@),
        )),
{
}

/// A document that is asked for on the way is judged: a sixth redirect and a refused
/// address close the page, and any other request lets it go on.
pub proof fn requests_on_the_way_are_judged(
    m: NavigationModel,
    redirected: bool,
    url: weburl::Url,
    lookup: Lookup,
)
    requires
        m.is_sound(),
        m.stage == NavigationStage::Go,
    ensures
        ({
            let after = m.step(NavigationEvent::Requested { redirected, url, lookup });
            let verdict = browser::policy_outcome(m.allow_local, url@, lookup);
            &&& redirected && m.hops >= 5 ==> page_is_dropped(
                after,
                BrowserFault::TooManyRedirects(5),
            )
            &&& !(redirected && m.hops >= 5) ==> (verdict matches Err(fault) ==> page_is_dropped(
                after,
                fault,
            ))
            &&& !(redirected && m.hops >= 5) && verdict is Ok ==> after.stage
                == NavigationStage::Go && after.hops == m.hops + (if redirected {
                1int
            } else {
                0
            })
        }),
{
}

/// Sending a query in which nothing goes wrong: the form is sent with the query, and
/// once its page was loaded the submission is done.
pub proof fn good_queries_are_sent(
    allow_local: bool,
    timeout: u128,
    form: discovery::FormModel,
    query: Seq<char>,
    remaining: u128,
)
    requires
        query.len() <= 512,
        vstd::utf8::encode_utf8(query).len() <= 2048,
        remaining > 0,
    ensures
        ({
            let start = submission_run::submission_started(allow_local, true, timeout, form, query);
            let asked = start.step(SubmissionEvent::Remaining(remaining));
            let limit = if remaining < timeout {
                remaining
            } else {
                timeout
            };
            &&& submission_run::submission_action(asked) == SubmissionActionModel::Submit(
                form,
                query,
                limit,
            )
            &&& submission_run::submission_action(asked.step(SubmissionEvent::Sent(Ok(true))))
                == SubmissionActionModel::Load(limit)
            &&& asked.step(SubmissionEvent::Sent(Ok(true))).step(SubmissionEvent::Loaded(Ok(())))
                .result == Some(Ok::<(), BrowserFault>(()))
        }),
{
}

/// The submission is over with an error.
pub open spec fn submission_fails(after: SubmissionModel, fault: BrowserFault) -> bool {
    after.result == Some(Err::<(), BrowserFault>(fault))
}

/// What keeps a query from being sent is told: a query that is too long, no page, no
/// time, a form that is gone, and what the browser said.
pub proof fn bad_queries_are_told(
    allow_local: bool,
    has_page: bool,
    timeout: u128,
    form: discovery::FormModel,
    query: Seq<char>,
    m: SubmissionModel,
    message: String,
)
    requires
        m.is_sound(),
    ensures
        ({
            let start = submission_run::submission_started(
                allow_local,
                has_page,
                timeout,
                form,
                query,
            );
            let fits = query.len() <= 512 && vstd::utf8::encode_utf8(query).len() <= 2048;
            &&& !fits ==> submission_fails(
                start,
                BrowserFault::Operation(
                    "form submission"@,
                    "query exceeds 512 characters or 2 KiB"@,
                ),
            )
            &&& fits && !has_page ==> submission_fails(start, BrowserFault::NoActivePage)
        }),
        m.stage == SubmissionStage::Budget ==> submission_fails(
            m.step(SubmissionEvent::Remaining(0)),
            BrowserFault::Timeout("form submission"@),
        ),
        m.stage == SubmissionStage::Submit ==> submission_fails(
            m.step(SubmissionEvent::Sent(Ok(false))),
            BrowserFault::Operation("form submission"@, "search form is no longer there"@),
        ) && submission_fails(
            m.step(SubmissionEvent::Sent(Err(OperationFailure::Failed(message)))),
            BrowserFault::Operation("form submission"@, message@),
        ),
        m.stage == SubmissionStage::Load ==> submission_fails(
            m.step(SubmissionEvent::Loaded(Err(OperationFailure::Failed(message)))),
            BrowserFault::Operation("form submission"@, message@),
        ) && submission_fails(
            m.step(SubmissionEvent::Loaded(Err(OperationFailure::TimedOut))),
            BrowserFault::Timeout("form submission"@),
        ),
{
}

/// Starting a browser in which nothing goes wrong: the first executable is started
/// with its own profile, downloads are forbidden, the pages that it opened itself are
/// closed, and the session knows them.
pub proof fn good_browsers_are_started(
    m: LaunchModel,
    marks: Vec<bool>,
    found: Seq<u8>,
    profile: paths::FilePath,
    targets: Vec<String>,
)
    requires
        m.is_sound(),
        m.stage == LaunchStage::Probe,
        browser::first_marked(
            browser::candidates(m.configured, browser::common_paths(), m.directories),
            marks@,
        ) == Some(found),
    ensures
        ({
            let probed = m.step(LaunchEvent::Probed(marks));
            let made = probed.step(LaunchEvent::ProfileMade(Ok(profile)));
            let ended = made.step(LaunchEvent::Started(Ok(()))).step(
                LaunchEvent::Forbidden(Ok(())),
            ).step(LaunchEvent::PagesClosed(targets));
            &&& made.stage == LaunchStage::Start && made.executable == found && made.profile
                == profile@
            &&& ended.result == Some(
                Ok::<Seq<Seq<char>>, BrowserFault>(text::views(targets@)),
            )
        }),
{
}

/// What keeps a browser from being started is told: none that is configured, none at
/// all, no profile, no start, and downloads that cannot be forbidden, in which case
/// it is killed first.
pub proof fn bad_browsers_are_told(m: LaunchModel, marks: Vec<bool>, message: String)
    requires
        m.is_sound(),
    ensures
        m.stage == LaunchStage::Probe && browser::first_marked(
            browser::candidates(m.configured, browser::common_paths(), m.directories),
            marks@,
        ) is None ==> m.step(LaunchEvent::Probed(marks)).result == Some(
            Err::<Seq<Seq<char>>, BrowserFault>(
                match m.configured {
                    Some(path) => BrowserFault::InvalidExecutable(path),
                    None => BrowserFault::MissingExecutable,
                },
            ),
        ),
        m.stage == LaunchStage::Profile ==> m.step(LaunchEvent::ProfileMade(Err(message))).result
            == Some(Err::<Seq<Seq<char>>, BrowserFault>(BrowserFault::Launch(message@))),
        m.stage == LaunchStage::Start ==> m.step(
            LaunchEvent::Started(Err(OperationFailure::TimedOut)),
        ).result == Some(Err::<Seq<Seq<char>>, BrowserFault>(BrowserFault::Timeout("launch"@)))
            && m.step(LaunchEvent::Started(Err(OperationFailure::Failed(message)))).result == Some(
            Err::<Seq<Seq<char>>, BrowserFault>(BrowserFault::Launch(message@)),
        ),
        m.stage == LaunchStage::Forbid ==> m.step(LaunchEvent::Forbidden(Err(message))).result
            is None && m.step(LaunchEvent::Forbidden(Err(message))).step(
            LaunchEvent::Killed,
        ).result == Some(
            Err::<Seq<Seq<char>>, BrowserFault>(
                BrowserFault::Operation("download policy"@, message@),
            ),
        ),
{
}

} // verus!
