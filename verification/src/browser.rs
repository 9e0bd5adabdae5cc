//! The rules of a browser session: which addresses may be opened, which
//! executable runs, and what each outcome of the browser means.

use crate::config::BrowserConfig;
use crate::paths;
use crate::paths::FilePath;
use crate::text;
use crate::text::{
    chars_of, decimal_string, is_listed, is_text, lower_chars, same_text, text_of, trim_end, CharClass,
};
use crate::weburl;
use crate::weburl::{Host, Url};
use vstd::prelude::*;

pub use crate::session_run::{BrowserSession, LaunchRun, NavigationRun, ShutdownRun};
pub use crate::submission_run::SubmissionRun;

verus! {

/// The most redirects that one page may take.
pub const MAX_REDIRECTS: usize = 5;

/// The most bytes that a rendered document may have.
pub const MAX_DOCUMENT_BYTES: usize = 2_097_152;

/// The most characters that a query may have.
pub const MAX_QUERY_CHARACTERS: usize = 512;

/// The most bytes that a query may have.
pub const MAX_QUERY_BYTES: usize = 2_048;

// --------------------------------------------------------------------- errors

/// Why a browser operation failed.
#[derive(Debug, PartialEq, Eq)]
pub enum BrowserError {
    InvalidExecutable(FilePath),
    MissingExecutable,
    Launch(String),
    PrematureExit,
    Timeout { stage: &'static str },
    Operation { stage: &'static str, message: String },
    NavigationRejected(String),
    TooManyRedirects(usize),
    UnexpectedWindow,
    NoActivePage,
}

/// A browser error by its values.
#[verifier::ext_equal]
pub enum BrowserFault {
    InvalidExecutable(Seq<u8>),
    MissingExecutable,
    Launch(Seq<char>),
    PrematureExit,
    Timeout(Seq<char>),
    Operation(Seq<char>, Seq<char>),
    NavigationRejected(Seq<char>),
    TooManyRedirects(usize),
    UnexpectedWindow,
    NoActivePage,
}

impl View for BrowserError {
    type V = BrowserFault;

    open spec fn view(&self) -> BrowserFault {
        match self {
            BrowserError::InvalidExecutable(path) => BrowserFault::InvalidExecutable(path@),
            BrowserError::MissingExecutable => BrowserFault::MissingExecutable,
            BrowserError::Launch(message) => BrowserFault::Launch(message@),
            BrowserError::PrematureExit => BrowserFault::PrematureExit,
            BrowserError::Timeout { stage } => BrowserFault::Timeout(stage@),
            BrowserError::Operation { stage, message } => BrowserFault::Operation(
                stage@,
                message@,
            ),
            BrowserError::NavigationRejected(message) => BrowserFault::NavigationRejected(message@),
            BrowserError::TooManyRedirects(limit) => BrowserFault::TooManyRedirects(*limit),
            BrowserError::UnexpectedWindow => BrowserFault::UnexpectedWindow,
            BrowserError::NoActivePage => BrowserFault::NoActivePage,
        }
    }
}

/// What holds of a result: success, or a given error.
pub open spec fn outcome_is(r: Result<(), BrowserError>, expected: Result<(), BrowserFault>) -> bool {
    match (r, expected) {
        (Ok(_), Ok(_)) => true,
        (Err(error), Err(fault)) => error@ == fault,
        _ => false,
    }
}

/// What each error says.
pub open spec fn fault_text(fault: BrowserFault) -> Seq<char> {
    match fault {
        BrowserFault::InvalidExecutable(path) => "configured browser executable is unavailable: "@
            + paths::lossy_text(path),
        BrowserFault::MissingExecutable =>
            "no Chrome or Chromium executable was found; configure browser.executable"@,
        BrowserFault::Launch(message) => "browser launch failed: "@ + message,
        BrowserFault::PrematureExit => "browser exited before the workflow completed"@,
        BrowserFault::Timeout(stage) => "browser "@ + stage + " timed out"@,
        BrowserFault::Operation(stage, message) => "browser operation failed during "@ + stage
            + ": "@ + message,
        BrowserFault::NavigationRejected(message) => "navigation rejected: "@ + message,
        BrowserFault::TooManyRedirects(limit) => "page exceeded "@ + text::decimal_text(
            limit as nat,
        ) + " redirects"@,
        BrowserFault::UnexpectedWindow => "page opened an unexpected top-level window"@,
        BrowserFault::NoActivePage => "browser has no active page"@,
    }
}

/// The text `front` followed by `back`.
fn glue(front: &str, back: &str) -> (r: String)
    ensures
        r@ == front@ + back@,
{
    let mut out = front.to_string();
    out.append(back);
    out
}

impl BrowserError {
    /// The error in words.
    pub fn message(&self) -> (r: String)
        ensures
            r@ == fault_text(self@),
    {
        match self {
            BrowserError::InvalidExecutable(path) => {
                let shown = path.display();
                glue("configured browser executable is unavailable: ", shown.as_str())
            },
            BrowserError::MissingExecutable => {
                "no Chrome or Chromium executable was found; configure browser.executable".to_string()
            },
            BrowserError::Launch(message) => glue("browser launch failed: ", message.as_str()),
            BrowserError::PrematureExit => {
                "browser exited before the workflow completed".to_string()
            },
            BrowserError::Timeout { stage } => {
                let mut out = glue("browser ", stage);
                out.append(" timed out");
                out
            },
            BrowserError::Operation { stage, message } => {
                let mut out = glue("browser operation failed during ", stage);
                out.append(": ");
                out.append(message.as_str());
                out
            },
            BrowserError::NavigationRejected(message) => {
                glue("navigation rejected: ", message.as_str())
            },
            BrowserError::TooManyRedirects(limit) => {
                let count = decimal_string(*limit as u64);
                let mut out = glue("page exceeded ", count.as_str());
                out.append(" redirects");
                out
            },
            BrowserError::UnexpectedWindow => {
                "page opened an unexpected top-level window".to_string()
            },
            BrowserError::NoActivePage => "browser has no active page".to_string(),
        }
    }
}

// ----------------------------------------------------------- network addresses

/// An address that a host name resolved to.
#[derive(Debug, Clone, Copy, PartialEq, Eq)]
pub enum IpAddress {
    V4([u8; 4]),
    V6([u16; 8]),
}

/// An IPv4 address that is reserved: set apart for future use, the broadcast
/// address among it (240.0.0.0/4), for the assignments of protocols
/// (192.0.0.0/24), for addresses shared behind a carrier (100.64.0.0/10), or for
/// benchmarks (198.18.0.0/15).
pub open spec fn is_reserved_ipv4(octets: Seq<u8>) -> bool {
    ||| 240 <= octets[0]
    ||| octets[0] == 192 && octets[1] == 0 && octets[2] == 0
    ||| octets[0] == 100 && 64 <= octets[1] <= 127
    ||| octets[0] == 198 && 18 <= octets[1] <= 19
}

/// An IPv4 address that no page may be loaded from: reserved, private, loopback,
/// link-local, documentation, multicast, or in the zero network.
pub open spec fn is_disallowed_ipv4(octets: Seq<u8>) -> bool {
    ||| is_reserved_ipv4(octets)
    ||| octets[0] == 10
    ||| octets[0] == 172 && 16 <= octets[1] <= 31
    ||| octets[0] == 192 && octets[1] == 168
    ||| octets[0] == 127
    ||| octets[0] == 169 && octets[1] == 254
    ||| octets[0] == 192 && octets[1] == 0 && octets[2] == 2
    ||| octets[0] == 198 && octets[1] == 51 && octets[2] == 100
    ||| octets[0] == 203 && octets[1] == 0 && octets[2] == 113
    ||| 224 <= octets[0] <= 239
    ||| octets[0] == 0
}

/// Whether the first segments up to `count` are zero.
pub open spec fn leading_zeros(segments: Seq<u16>, count: int) -> bool {
    forall|i: int| 0 <= i < count ==> segments[i] == 0
}

/// The octets of an IPv4 address that stands in the segment `at` and the next one.
pub open spec fn octets_at(segments: Seq<u16>, at: int) -> Seq<u8> {
    seq![
        (segments[at] / 256) as u8,
        (segments[at] % 256) as u8,
        (segments[at + 1] / 256) as u8,
        (segments[at + 1] % 256) as u8,
    ]
}

/// The octets of the IPv4 address that stands in an IPv6 address, if one does: at
/// the end of an IPv4-mapped (::ffff:0:0/96), an IPv4-compatible (::/96) or a
/// translated address (64:ff9b::/96), or behind the prefix of 6to4 (2002::/16).
pub open spec fn embedded_octets(segments: Seq<u16>) -> Option<Seq<u8>> {
    if leading_zeros(segments, 5) && (segments[5] == 0xffff || segments[5] == 0) {
        Some(octets_at(segments, 6))
    } else if segments[0] == 0x64 && segments[1] == 0xff9b && segments[2] == 0 && segments[3] == 0
        && segments[4] == 0 && segments[5] == 0 {
        Some(octets_at(segments, 6))
    } else if segments[0] == 0x2002 {
        Some(octets_at(segments, 1))
    } else {
        None
    }
}

/// An IPv6 address that is reserved: set apart for local translation
/// (64:ff9b:1::/48), for discarding (100::/64), for the assignments of protocols
/// and for benchmarks (2001::/23), for segment routing (5f00::/16), or left over
/// from the former site-local addresses (fec0::/10).
pub open spec fn is_reserved_ipv6(segments: Seq<u16>) -> bool {
    ||| segments[0] == 0x64 && segments[1] == 0xff9b && segments[2] == 1
    ||| segments[0] == 0x100 && segments[1] == 0 && segments[2] == 0 && segments[3] == 0
    ||| segments[0] == 0x2001 && segments[1] <= 0x1ff
    ||| segments[0] == 0x5f00
    ||| 0xfec0 <= segments[0] <= 0xfeff
}

/// An IPv6 address that no page may be loaded from: one in which such an IPv4
/// address stands, the loopback and the unspecified address among them; reserved,
/// multicast, unique local, link-local, or documentation.
pub open spec fn is_disallowed_ipv6(segments: Seq<u16>) -> bool {
    match embedded_octets(segments) {
        Some(octets) => is_disallowed_ipv4(octets),
        None => {
            ||| is_reserved_ipv6(segments)
            ||| 0xff00 <= segments[0]
            ||| 0xfc00 <= segments[0] <= 0xfdff
            ||| 0xfe80 <= segments[0] <= 0xfebf
            ||| segments[0] == 0x2001 && segments[1] == 0x0db8
            ||| segments[0] == 0x3fff && segments[1] <= 0xfff
        },
    }
}

/// An address that no page may be loaded from.
pub open spec fn is_disallowed(address: IpAddress) -> bool {
    match address {
        IpAddress::V4(octets) => is_disallowed_ipv4(octets@),
        IpAddress::V6(segments) => is_disallowed_ipv6(segments@),
    }
}

fn ipv4_is_reserved(o: &[u8; 4]) -> (r: bool)
    ensures
        r == is_reserved_ipv4(o@),
{
    240 <= o[0] || (o[0] == 192 && o[1] == 0 && o[2] == 0) || (o[0] == 100 && 64 <= o[1] && o[1]
        <= 127) || (o[0] == 198 && 18 <= o[1] && o[1] <= 19)
}

fn ipv4_is_disallowed(o: &[u8; 4]) -> (r: bool)
    ensures
        r == is_disallowed_ipv4(o@),
{
    ipv4_is_reserved(o) || o[0] == 10 || (o[0] == 172 && 16 <= o[1] && o[1] <= 31) || (o[0] == 192
        && o[1] == 168) || o[0] == 127 || (o[0] == 169 && o[1] == 254) || (o[0] == 192 && o[1] == 0
        && o[2] == 2) || (o[0] == 198 && o[1] == 51 && o[2] == 100) || (o[0] == 203 && o[1] == 0
        && o[2] == 113) || (224 <= o[0] && o[0] <= 239) || o[0] == 0
}

fn octets_from(s: &[u16; 8], at: usize) -> (r: [u8; 4])
    requires
        at <= 6,
    ensures
        r@ == octets_at(s@, at as int),
{
    let octets = [
        (s[at] / 256) as u8,
        (s[at] % 256) as u8,
        (s[at + 1] / 256) as u8,
        (s[at + 1] % 256) as u8,
    ];
    proof {
        assert(octets@ =~= octets_at(s@, at as int));
    }
    octets
}

fn ipv6_is_reserved(s: &[u16; 8]) -> (r: bool)
    ensures
        r == is_reserved_ipv6(s@),
{
    (s[0] == 0x64 && s[1] == 0xff9b && s[2] == 1) || (s[0] == 0x100 && s[1] == 0 && s[2] == 0
        && s[3] == 0) || (s[0] == 0x2001 && s[1] <= 0x1ff) || s[0] == 0x5f00 || (0xfec0 <= s[0]
        && s[0] <= 0xfeff)
}

fn ipv6_is_disallowed(s: &[u16; 8]) -> (r: bool)
    ensures
        r == is_disallowed_ipv6(s@),
{
    let five = s[0] == 0 && s[1] == 0 && s[2] == 0 && s[3] == 0 && s[4] == 0;
    proof {
        assert(five == leading_zeros(s@, 5));
    }
    if five && (s[5] == 0xffff || s[5] == 0) {
        return ipv4_is_disallowed(&octets_from(s, 6));
    }
    if s[0] == 0x64 && s[1] == 0xff9b && s[2] == 0 && s[3] == 0 && s[4] == 0 && s[5] == 0 {
        return ipv4_is_disallowed(&octets_from(s, 6));
    }
    if s[0] == 0x2002 {
        return ipv4_is_disallowed(&octets_from(s, 1));
    }
    ipv6_is_reserved(s) || 0xff00 <= s[0] || (0xfc00 <= s[0] && s[0] <= 0xfdff) || (0xfe80 <= s[0]
        && s[0] <= 0xfebf) || (s[0] == 0x2001 && s[1] == 0x0db8) || (s[0] == 0x3fff && s[1]
        <= 0xfff)
}

/// Whether no page may be loaded from `address`.
pub fn address_is_disallowed(address: &IpAddress) -> (r: bool)
    ensures
        r == is_disallowed(*address),
{
    match address {
        IpAddress::V4(octets) => ipv4_is_disallowed(octets),
        IpAddress::V6(segments) => ipv6_is_disallowed(segments),
    }
}

// --------------------------------------------------------------------- policy

/// What a look-up of a host name gave.
#[derive(Debug, PartialEq, Eq)]
pub enum Lookup {
    TimedOut,
    Failed,
    Found(Vec<IpAddress>),
}

/// What is settled of an address before any look-up.
#[derive(Debug, PartialEq, Eq)]
pub enum Preflight {
    Allowed,
    Refused(BrowserError),
    Resolve { host: String, port: u16 },
}

/// A preflight by its values.
#[verifier::ext_equal]
pub enum PreflightModel {
    Allowed,
    Refused(BrowserFault),
    Resolve(Seq<char>, u16),
}

impl View for Preflight {
    type V = PreflightModel;

    open spec fn view(&self) -> PreflightModel {
        match self {
            Preflight::Allowed => PreflightModel::Allowed,
            Preflight::Refused(error) => PreflightModel::Refused(error@),
            Preflight::Resolve { host, port } => PreflightModel::Resolve(host@, *port),
        }
    }
}

/// Which addresses a session may open.
#[derive(Debug, Clone, Copy, PartialEq, Eq)]
pub struct NavigationPolicy {
    allow_local_test_pages: bool,
}

/// The refusal of an address that is not public.
pub open spec fn not_public() -> BrowserFault {
    BrowserFault::NavigationRejected(
        "local, private, and reserved network destinations are not permitted"@,
    )
}

/// A host name without trailing full stops, in lower case.
pub open spec fn normal_name(name: Seq<char>) -> Seq<char> {
    text::lower(text::strip_end(name, CharClass::Dot))
}

/// Whether a name stands for this machine.
pub open spec fn is_local_name(name: Seq<char>) -> bool {
    name == "localhost"@ || ends_with(name, ".localhost"@)
}

/// Whether `value` ends in `tail`.
pub open spec fn ends_with(value: Seq<char>, tail: Seq<char>) -> bool {
    tail.len() <= value.len() && value.skip(value.len() - tail.len()) == tail
}

/// What is settled of a URL before any look-up.
pub open spec fn preflight(allow_local: bool, url: weburl::UrlModel) -> PreflightModel {
    if !weburl::is_web(url) {
        PreflightModel::Refused(
            BrowserFault::NavigationRejected("only HTTP and HTTPS are permitted"@),
        )
    } else if weburl::has_credentials(url) {
        PreflightModel::Refused(
            BrowserFault::NavigationRejected("URL credentials are not permitted"@),
        )
    } else {
        match url.host {
            None => PreflightModel::Refused(
                BrowserFault::NavigationRejected("URL must contain a host"@),
            ),
            Some(host) => if allow_local {
                PreflightModel::Allowed
            } else {
                match host {
                    weburl::HostModel::Ipv4(octets) => if is_disallowed_ipv4(octets) {
                        PreflightModel::Refused(not_public())
                    } else {
                        PreflightModel::Allowed
                    },
                    weburl::HostModel::Ipv6(segments) => if is_disallowed_ipv6(segments) {
                        PreflightModel::Refused(not_public())
                    } else {
                        PreflightModel::Allowed
                    },
                    weburl::HostModel::Domain(name) => if is_local_name(normal_name(name)) {
                        PreflightModel::Refused(
                            BrowserFault::NavigationRejected(
                                "loopback destinations are not permitted"@,
                            ),
                        )
                    } else {
                        match url.port {
                            None => PreflightModel::Refused(
                                BrowserFault::NavigationRejected("URL has no usable port"@),
                            ),
                            Some(port) => PreflightModel::Resolve(normal_name(name), port),
                        }
                    },
                }
            },
        }
    }
}

/// What a look-up means: it must give at least one address, and public ones
/// only.
pub open spec fn lookup_outcome(lookup: Lookup) -> Result<(), BrowserFault> {
    match lookup {
        Lookup::TimedOut => Err(BrowserFault::Timeout("host resolution"@)),
        Lookup::Failed => Err(
            BrowserFault::NavigationRejected("destination host could not be resolved"@),
        ),
        Lookup::Found(addresses) => if addresses@.len() == 0 {
            Err(BrowserFault::NavigationRejected("destination host resolved to no addresses"@))
        } else if exists|i: int|
            0 <= i < addresses@.len() && #[trigger] is_disallowed(addresses@[i]) {
            Err(not_public())
        } else {
            Ok(())
        },
    }
}

/// What the policy says of a URL, given what its host name resolves to.
pub open spec fn policy_outcome(allow_local: bool, url: weburl::UrlModel, lookup: Lookup) -> Result<
    (),
    BrowserFault,
> {
    match preflight(allow_local, url) {
        PreflightModel::Allowed => Ok(()),
        PreflightModel::Refused(fault) => Err(fault),
        PreflightModel::Resolve(_, _) => lookup_outcome(lookup),
    }
}

fn rejected(reason: &str) -> (r: BrowserError)
    ensures
        r@ == BrowserFault::NavigationRejected(reason@),
{
    BrowserError::NavigationRejected(reason.to_string())
}

fn refuse_address() -> (r: BrowserError)
    ensures
        r@ == not_public(),
{
    rejected("local, private, and reserved network destinations are not permitted")
}

/// Judges what a look-up gave.
pub fn judge_lookup(lookup: &Lookup) -> (r: Result<(), BrowserError>)
    ensures
        outcome_is(r, lookup_outcome(*lookup)),
{
    match lookup {
        Lookup::TimedOut => Err(BrowserError::Timeout { stage: "host resolution" }),
        Lookup::Failed => Err(rejected("destination host could not be resolved")),
        Lookup::Found(addresses) => {
            let mut i: usize = 0;
            while i < addresses.len()
                invariant
                    i <= addresses@.len(),
                    *lookup == Lookup::Found(*addresses),
                    forall|j: int| 0 <= j < i ==> !is_disallowed(#[trigger] addresses@[j]),
                decreases addresses@.len() - i,
            {
                if address_is_disallowed(&addresses[i]) {
                    proof {
                        assert(is_disallowed(addresses@[i as int]));
                    }
                    return Err(refuse_address());
                }
                i = i + 1;
            }
            if addresses.len() == 0 {
                Err(rejected("destination host resolved to no addresses"))
            } else {
                Ok(())
            }
        },
    }
}

fn name_is_local(name: &Vec<char>) -> (r: bool)
    ensures
        r == is_local_name(name@),
{
    if is_text(name, "localhost") {
        return true;
    }
    let tail = chars_of(".localhost");
    if tail.len() > name.len() {
        return false;
    }
    let end = text::slice_chars(name, name.len() - tail.len(), name.len());
    proof {
        assert(end@ =~= name@.skip(name@.len() - tail@.len()));
    }
    text::same_chars(&end, &tail)
}

impl NavigationPolicy {
    /// Whether pages of this machine may be opened.
    pub closed spec fn allows_local(&self) -> bool {
        self.allow_local_test_pages
    }

    /// The policy of the program: public destinations only.
    pub fn production() -> (r: NavigationPolicy)
        ensures
            !r.allows_local(),
    {
        NavigationPolicy { allow_local_test_pages: false }
    }

    /// A policy that admits any host, for pages served locally.
    pub fn local_test_pages() -> (r: NavigationPolicy)
        ensures
            r.allows_local(),
    {
        NavigationPolicy { allow_local_test_pages: true }
    }

    /// What is settled of a URL before its host name is looked up.
    pub fn preflight(&self, url: &Url) -> (r: Preflight)
        ensures
            r@ == preflight(self.allows_local(), url@),
    {
        if !url.is_web() {
            return Preflight::Refused(rejected("only HTTP and HTTPS are permitted"));
        }
        if url.has_credentials() {
            return Preflight::Refused(rejected("URL credentials are not permitted"));
        }
        let host = match url.host() {
            Some(host) => host,
            None => {
                return Preflight::Refused(rejected("URL must contain a host"));
            },
        };
        if self.allow_local_test_pages {
            return Preflight::Allowed;
        }
        match host {
            Host::Ipv4(octets) => if ipv4_is_disallowed(octets) {
                Preflight::Refused(refuse_address())
            } else {
                Preflight::Allowed
            },
            Host::Ipv6(segments) => if ipv6_is_disallowed(segments) {
                Preflight::Refused(refuse_address())
            } else {
                Preflight::Allowed
            },
            Host::Domain(name) => {
                let stripped = trim_end(&chars_of(name.as_str()), CharClass::Dot);
                let normal = lower_chars(&stripped);
                if name_is_local(&normal) {
                    return Preflight::Refused(rejected("loopback destinations are not permitted"));
                }
                match url.port_or_known_default() {
                    Some(port) => Preflight::Resolve { host: text_of(&normal), port },
                    None => Preflight::Refused(rejected("URL has no usable port")),
                }
            },
        }
    }

    /// Whether a URL may be opened, given what its host name resolves to. The
    /// look-up counts only where the preflight asks for one.
    pub fn validate(&self, url: &Url, lookup: &Lookup) -> (r: Result<(), BrowserError>)
        ensures
            outcome_is(r, policy_outcome(self.allows_local(), url@, *lookup)),
    {
        match self.preflight(url) {
            Preflight::Allowed => Ok(()),
            Preflight::Refused(error) => Err(error),
            Preflight::Resolve { .. } => judge_lookup(lookup),
        }
    }
}

/// The production policy opens nothing but web addresses without credentials
/// whose host is public: a literal address outside the disallowed ranges, or a
/// name other than this machine's that resolves to such addresses only.
pub proof fn permitted_destinations_are_public(url: weburl::UrlModel, lookup: Lookup)
    requires
        policy_outcome(false, url, lookup) is Ok,
    ensures
        weburl::is_web(url),
        !weburl::has_credentials(url),
        match url.host {
            None => false,
            Some(weburl::HostModel::Ipv4(octets)) => !is_disallowed_ipv4(octets),
            Some(weburl::HostModel::Ipv6(segments)) => !is_disallowed_ipv6(segments),
            Some(weburl::HostModel::Domain(name)) => !is_local_name(normal_name(name))
                && (match lookup {
                Lookup::Found(addresses) => addresses@.len() > 0 && forall|i: int|
                    0 <= i < addresses@.len() ==> !is_disallowed(#[trigger] addresses@[i]),
                _ => false,
            }),
        },
{
}

/// No page is loaded from a reserved address, nor from an IPv6 address in which an
/// IPv4 address stands that no page may be loaded from. The loopback and the
/// unspecified address are such ones.
pub proof fn reserved_addresses_are_refused(octets: Seq<u8>, segments: Seq<u16>)
    requires
        segments.len() == 8,
    ensures
        is_reserved_ipv4(octets) ==> is_disallowed_ipv4(octets),
        is_reserved_ipv6(segments) ==> is_disallowed_ipv6(segments),
        embedded_octets(segments) == Some(octets) && is_disallowed_ipv4(octets)
            ==> is_disallowed_ipv6(segments),
        leading_zeros(segments, 7) && segments[7] <= 1 ==> is_disallowed_ipv6(segments),
{
    if leading_zeros(segments, 7) {
        assert(segments[0] == 0 && segments[5] == 0 && segments[6] == 0);
        assert(leading_zeros(segments, 5));
        assert(octets_at(segments, 6)[0] == 0);
    }
}

// ------------------------------------------------------------------ documents

/// A rendered document by its values.
#[verifier::ext_equal]
pub struct DocumentModel {
    pub url: weburl::UrlModel,
    pub html: Seq<char>,
}

/// A rendered page: the address it ended at and its HTML.
#[derive(Debug, PartialEq, Eq)]
pub struct RenderedDocument {
    pub url: Url,
    pub html: String,
}

impl View for RenderedDocument {
    type V = DocumentModel;

    open spec fn view(&self) -> DocumentModel {
        DocumentModel { url: self.url@, html: self.html@ }
    }
}

impl Clone for RenderedDocument {
    fn clone(&self) -> (r: RenderedDocument)
        ensures
            r@ == self@,
    {
        RenderedDocument { url: self.url.clone(), html: self.html.clone() }
    }
}

/// Whether a rendered document is small enough.
pub open spec fn size_outcome(html: Seq<char>) -> Result<(), BrowserFault> {
    if vstd::utf8::encode_utf8(html).len() > MAX_DOCUMENT_BYTES {
        Err(BrowserFault::NavigationRejected("rendered document exceeds the size limit"@))
    } else {
        Ok(())
    }
}

/// Refuses a rendered document that is larger than [`MAX_DOCUMENT_BYTES`].
pub fn check_document_size(html: &str) -> (r: Result<(), BrowserError>)
    ensures
        outcome_is(r, size_outcome(html@)),
{
    if html.as_bytes().len() > MAX_DOCUMENT_BYTES {
        Err(rejected("rendered document exceeds the size limit"))
    } else {
        Ok(())
    }
}

/// Whether a query is short enough to be sent.
pub open spec fn query_fits(query: Seq<char>) -> bool {
    query.len() <= MAX_QUERY_CHARACTERS && vstd::utf8::encode_utf8(query).len() <= MAX_QUERY_BYTES
}

/// Refuses a query with more than [`MAX_QUERY_CHARACTERS`] characters or
/// [`MAX_QUERY_BYTES`] bytes.
pub fn check_query(query: &str) -> (r: Result<(), BrowserError>)
    ensures
        outcome_is(
            r,
            if query_fits(query@) {
                Ok(())
            } else {
                Err(
                    BrowserFault::Operation(
                        "form submission"@,
                        "query exceeds 512 characters or 2 KiB"@,
                    ),
                )
            },
        ),
{
    if chars_of(query).len() > MAX_QUERY_CHARACTERS || query.as_bytes().len() > MAX_QUERY_BYTES {
        Err(
            BrowserError::Operation {
                stage: "form submission",
                message: "query exceeds 512 characters or 2 KiB".to_string(),
            },
        )
    } else {
        Ok(())
    }
}

/// What the address that a page reports means.
pub open spec fn page_address(reported: Option<Seq<char>>) -> Result<
    weburl::UrlModel,
    BrowserFault,
> {
    match reported {
        None => Err(BrowserFault::Operation("URL read"@, "page did not report a URL"@)),
        Some(value) => match weburl::url_parse(value) {
            Some(url) => Ok(url),
            None => Err(BrowserFault::NavigationRejected("browser returned a malformed URL"@)),
        },
    }
}

/// Reads the address that a page reports.
pub fn read_page_address(reported: &Option<String>) -> (r: Result<Url, BrowserError>)
    ensures
        match (r, page_address(text::opt_view(*reported))) {
            (Ok(url), Ok(model)) => url@ == model,
            (Err(error), Err(fault)) => error@ == fault,
            _ => false,
        },
{
    match reported {
        Some(value) => match Url::parse(value.as_str()) {
            Some(url) => Ok(url),
            None => Err(rejected("browser returned a malformed URL")),
        },
        None => Err(
            BrowserError::Operation {
                stage: "URL read",
                message: "page did not report a URL".to_string(),
            },
        ),
    }
}

/// What one more document request of a page means, given how many redirects the
/// page has taken and what the policy says of the address. A redirect beyond
/// [`MAX_REDIRECTS`] is refused whatever its address is.
pub open spec fn hop_outcome(
    hops: usize,
    redirected: bool,
    verdict: Result<(), BrowserFault>,
) -> Result<usize, BrowserFault> {
    if redirected && hops >= MAX_REDIRECTS {
        Err(BrowserFault::TooManyRedirects(MAX_REDIRECTS))
    } else {
        match verdict {
            Err(fault) => Err(fault),
            Ok(_) => Ok(
                if redirected {
                    (hops + 1) as usize
                } else {
                    hops
                },
            ),
        }
    }
}

/// Judges one more document request of a page; gives the redirects that the page
/// has taken then.
pub fn accept_hop(hops: usize, redirected: bool, verdict: Result<(), BrowserError>) -> (r: Result<
    usize,
    BrowserError,
>)
    ensures
        match (
            r,
            hop_outcome(
                hops,
                redirected,
                match verdict {
                    Ok(_) => Ok(()),
                    Err(error) => Err(error@),
                },
            ),
        ) {
            (Ok(count), Ok(expected)) => count == expected,
            (Err(error), Err(fault)) => error@ == fault,
            _ => false,
        },
{
    if redirected && hops >= MAX_REDIRECTS {
        return Err(BrowserError::TooManyRedirects(MAX_REDIRECTS));
    }
    match verdict {
        Err(error) => Err(error),
        Ok(_) => if redirected {
            Ok(hops + 1)
        } else {
            Ok(hops)
        },
    }
}

// ------------------------------------------------------------------ executable

/// The places where Ubuntu installs Chrome and Chromium, most wanted first.
pub open spec fn common_paths() -> Seq<Seq<u8>> {
    seq![
        vstd::utf8::encode_utf8("/usr/bin/google-chrome"@),
        vstd::utf8::encode_utf8("/usr/bin/google-chrome-stable"@),
        vstd::utf8::encode_utf8("/usr/bin/chromium"@),
        vstd::utf8::encode_utf8("/usr/bin/chromium-browser"@),
        vstd::utf8::encode_utf8("/snap/bin/chromium"@),
    ]
}

/// The names under which Chrome and Chromium are looked for on the search path.
pub open spec fn browser_names() -> Seq<Seq<u8>> {
    seq![
        vstd::utf8::encode_utf8("google-chrome"@),
        vstd::utf8::encode_utf8("google-chrome-stable"@),
        vstd::utf8::encode_utf8("chromium"@),
        vstd::utf8::encode_utf8("chromium-browser"@),
    ]
}

/// The places where Ubuntu installs Chrome and Chromium, most wanted first.
pub fn common_browser_paths() -> (r: Vec<FilePath>)
    ensures
        paths::path_views(r@) == common_paths(),
{
    let out = vec![
        FilePath::new("/usr/bin/google-chrome"),
        FilePath::new("/usr/bin/google-chrome-stable"),
        FilePath::new("/usr/bin/chromium"),
        FilePath::new("/usr/bin/chromium-browser"),
        FilePath::new("/snap/bin/chromium"),
    ];
    proof {
        assert(paths::path_views(out@) =~= common_paths());
    }
    out
}

/// The file called `name` in each directory.
pub open spec fn in_each(directories: Seq<Seq<u8>>, name: Seq<u8>) -> Seq<Seq<u8>> {
    Seq::new(directories.len(), |i: int| paths::joined(directories[i], name))
}

/// The files called by each name in turn, in each directory.
pub open spec fn each_in_each(directories: Seq<Seq<u8>>, names: Seq<Seq<u8>>) -> Seq<Seq<u8>>
    decreases names.len(),
{
    if names.len() == 0 {
        Seq::empty()
    } else {
        each_in_each(directories, names.drop_last()) + in_each(directories, names.last())
    }
}

/// The executables that may be the browser, in order of preference. A
/// configured name without a directory is looked for on the search path first;
/// any other configured path stands alone.
pub open spec fn candidates(
    configured: Option<Seq<u8>>,
    common: Seq<Seq<u8>>,
    directories: Seq<Seq<u8>>,
) -> Seq<Seq<u8>> {
    match configured {
        Some(path) => if paths::component_count(path) == 1 {
            in_each(directories, path).push(path)
        } else {
            seq![path]
        },
        None => common + each_in_each(directories, browser_names()),
    }
}

/// The first of the paths that is known to be executable.
pub open spec fn first_marked(files: Seq<Seq<u8>>, marks: Seq<bool>) -> Option<Seq<u8>>
    decreases files.len(),
{
    if files.len() == 0 || marks.len() == 0 {
        None
    } else if marks[0] {
        Some(files[0])
    } else {
        first_marked(files.drop_first(), marks.drop_first())
    }
}

/// Appends the file called `name` in each directory.
pub fn push_in_each(out: &mut Vec<FilePath>, directories: &Vec<FilePath>, name: &FilePath)
    ensures
        paths::path_views(final(out)@) == paths::path_views(old(out)@) + in_each(
            paths::path_views(directories@),
            name@,
        ),
{
    let ghost start = paths::path_views(out@);
    let ghost all = in_each(paths::path_views(directories@), name@);
    let mut i: usize = 0;
    proof {
        assert(start + all.take(0) =~= start);
    }
    while i < directories.len()
        invariant
            i <= directories@.len(),
            all == in_each(paths::path_views(directories@), name@),
            paths::path_views(out@) == start + all.take(i as int),
        decreases directories@.len() - i,
    {
        let ghost before = paths::path_views(out@);
        let file = directories[i].join(name);
        out.push(file);
        proof {
            assert(paths::path_views(out@) =~= before.push(file@));
            assert(all.take(i as int + 1) =~= all.take(i as int).push(all[i as int]));
            assert(start + all.take(i as int + 1) =~= (start + all.take(i as int)).push(
                all[i as int],
            ));
        }
        i = i + 1;
    }
    proof {
        assert(all.take(all.len() as int) =~= all);
    }
}

/// The executables that may be the browser, in order of preference.
pub fn browser_candidates(
    configured: &Option<FilePath>,
    common: &Vec<FilePath>,
    directories: &Vec<FilePath>,
) -> (r: Vec<FilePath>)
    ensures
        paths::path_views(r@) == candidates(
            paths::opt_path(*configured),
            paths::path_views(common@),
            paths::path_views(directories@),
        ),
{
    let mut out: Vec<FilePath> = Vec::new();
    proof {
        assert(paths::path_views(out@) =~= Seq::empty());
    }
    match configured {
        Some(path) => {
            if path.components() == 1 {
                push_in_each(&mut out, directories, path);
            }
            let ghost before = paths::path_views(out@);
            let last = path.clone();
            out.push(last);
            proof {
                assert(paths::path_views(out@) =~= before.push(path@));
                assert(paths::path_views(out@) =~= candidates(
                    Some(path@),
                    paths::path_views(common@),
                    paths::path_views(directories@),
                ));
            }
        },
        None => {
            let mut i: usize = 0;
            while i < common.len()
                invariant
                    i <= common@.len(),
                    paths::path_views(out@) == paths::path_views(common@).take(i as int),
                decreases common@.len() - i,
            {
                let ghost before = paths::path_views(out@);
                let file = common[i].clone();
                out.push(file);
                proof {
                    assert(paths::path_views(out@) =~= before.push(file@));
                    assert(paths::path_views(common@).take(i as int + 1) =~= paths::path_views(
                        common@,
                    ).take(i as int).push(paths::path_views(common@)[i as int]));
                }
                i = i + 1;
            }
            let ghost first = paths::path_views(out@);
            let ghost dirs = paths::path_views(directories@);
            let names = vec![
                FilePath::new("google-chrome"),
                FilePath::new("google-chrome-stable"),
                FilePath::new("chromium"),
                FilePath::new("chromium-browser"),
            ];
            let ghost all = browser_names();
            proof {
                assert(paths::path_views(common@).take(common@.len() as int)
                    =~= paths::path_views(common@));
                assert(paths::path_views(names@) =~= all);
                assert(all.take(0) =~= Seq::empty());
                assert(first + each_in_each(dirs, all.take(0)) =~= first);
            }
            let mut k: usize = 0;
            while k < names.len()
                invariant
                    k <= names@.len(),
                    paths::path_views(names@) == all,
                    dirs == paths::path_views(directories@),
                    paths::path_views(out@) == first + each_in_each(dirs, all.take(k as int)),
                decreases names@.len() - k,
            {
                push_in_each(&mut out, directories, &names[k]);
                proof {
                    assert(all.take(k as int + 1).drop_last() =~= all.take(k as int));
                    assert(all.take(k as int + 1).last() == all[k as int]);
                    assert((first + each_in_each(dirs, all.take(k as int))) + in_each(
                        dirs,
                        all[k as int],
                    ) =~= first + each_in_each(dirs, all.take(k as int + 1)));
                }
                k = k + 1;
            }
            proof {
                assert(all.take(all.len() as int) =~= all);
            }
        },
    }
    out
}

/// The first of the files that is marked.
pub fn first_executable(files: &Vec<FilePath>, marks: &Vec<bool>) -> (r: Option<FilePath>)
    ensures
        paths::opt_path(r) == first_marked(paths::path_views(files@), marks@),
{
    let ghost all = paths::path_views(files@);
    let mut i: usize = 0;
    proof {
        assert(all.skip(0) =~= all);
        assert(marks@.skip(0) =~= marks@);
    }
    while i < files.len() && i < marks.len()
        invariant
            i <= files@.len(),
            i <= marks@.len(),
            all == paths::path_views(files@),
            first_marked(all.skip(i as int), marks@.skip(i as int)) == first_marked(all, marks@),
        decreases files@.len() - i,
    {
        proof {
            assert(all.skip(i as int).drop_first() =~= all.skip(i as int + 1));
            assert(marks@.skip(i as int).drop_first() =~= marks@.skip(i as int + 1));
        }
        if marks[i] {
            return Some(files[i].clone());
        }
        i = i + 1;
    }
    None
}

/// The browser to run, given which of the candidates are executable files.
pub fn locate_browser_with(
    configured: &Option<FilePath>,
    common: &Vec<FilePath>,
    directories: &Vec<FilePath>,
    executable: &Vec<bool>,
) -> (r: Result<FilePath, BrowserError>)
    ensures
        match (r, first_marked(
            candidates(
                paths::opt_path(*configured),
                paths::path_views(common@),
                paths::path_views(directories@),
            ),
            executable@,
        )) {
            (Ok(path), Some(found)) => path@ == found,
            (Err(error), None) => error@ == (match *configured {
                Some(path) => BrowserFault::InvalidExecutable(path@),
                None => BrowserFault::MissingExecutable,
            }),
            _ => false,
        },
{
    let files = browser_candidates(configured, common, directories);
    match first_executable(&files, executable) {
        Some(path) => Ok(path),
        None => match configured {
            Some(path) => Err(BrowserError::InvalidExecutable(path.clone())),
            None => Err(BrowserError::MissingExecutable),
        },
    }
}

// --------------------------------------------------------------------- session

/// How the browser is started.
#[derive(Debug, PartialEq, Eq)]
pub struct BrowserLaunchPlan {
    pub executable: FilePath,
    pub profile_path: FilePath,
    pub headless: bool,
    pub launch_timeout_seconds: u64,
    pub overall_timeout_seconds: u64,
    pub arguments: Vec<String>,
}

/// The switches that every browser is started with.
pub open spec fn launch_switches() -> Seq<Seq<char>> {
    seq![
        "--disable-component-update"@,
        "--disable-domain-reliability"@,
        "--disable-notifications"@,
        "--disable-save-password-bubble"@,
        "--no-default-browser-check"@,
    ]
}

/// Whether a plan follows the settings. Starting may take as long as one
/// navigation, and no longer than the whole session.
pub open spec fn plan_fits(plan: BrowserLaunchPlan, settings: BrowserConfig) -> bool {
    &&& plan.headless == settings.headless
    &&& plan.launch_timeout_seconds == (if settings.navigation_timeout_seconds
        < settings.overall_timeout_seconds {
        settings.navigation_timeout_seconds
    } else {
        settings.overall_timeout_seconds
    })
    &&& plan.overall_timeout_seconds == settings.overall_timeout_seconds
    &&& text::views(plan.arguments@) == launch_switches()
}

impl BrowserLaunchPlan {
    /// Plans the start of a browser with a profile of its own. Starting may take
    /// as long as one navigation, and no longer than the whole session.
    pub fn new(settings: &BrowserConfig, executable: FilePath, profile_path: FilePath) -> (r:
        BrowserLaunchPlan)
        ensures
            r.executable@ == executable@,
            r.profile_path@ == profile_path@,
            plan_fits(r, *settings),
    {
        let arguments = vec![
            "--disable-component-update".to_string(),
            "--disable-domain-reliability".to_string(),
            "--disable-notifications".to_string(),
            "--disable-save-password-bubble".to_string(),
            "--no-default-browser-check".to_string(),
        ];
        proof {
            assert(text::views(arguments@) =~= launch_switches());
        }
        BrowserLaunchPlan {
            executable,
            profile_path,
            headless: settings.headless,
            launch_timeout_seconds: if settings.navigation_timeout_seconds
                < settings.overall_timeout_seconds {
                settings.navigation_timeout_seconds
            } else {
                settings.overall_timeout_seconds
            },
            overall_timeout_seconds: settings.overall_timeout_seconds,
            arguments,
        }
    }
}

/// How long an operation may take: no longer than what remains of the session
/// and than one navigation.
pub open spec fn time_allowed(remaining: u128, navigation_timeout: u128, stage: Seq<char>) -> Result<
    u128,
    BrowserFault,
> {
    if remaining == 0 {
        Err(BrowserFault::Timeout(stage))
    } else if remaining < navigation_timeout {
        Ok(remaining)
    } else {
        Ok(navigation_timeout)
    }
}

/// How long an operation may take, in nanoseconds: no longer than what remains
/// of the session and than one navigation. Where nothing remains it times out.
pub fn operation_timeout(remaining: u128, navigation_timeout: u128, stage: &'static str) -> (r:
    Result<u128, BrowserError>)
    ensures
        match (r, time_allowed(remaining, navigation_timeout, stage@)) {
            (Ok(limit), Ok(expected)) => limit == expected,
            (Err(error), Err(fault)) => error@ == fault,
            _ => false,
        },
{
    if remaining == 0 {
        return Err(BrowserError::Timeout { stage });
    }
    if remaining < navigation_timeout {
        Ok(remaining)
    } else {
        Ok(navigation_timeout)
    }
}

/// How a browser operation failed.
#[derive(Debug, PartialEq, Eq)]
pub enum OperationFailure {
    TimedOut,
    Failed(String),
}

/// The error of a failed operation.
pub open spec fn operation_fault(stage: Seq<char>, failure: OperationFailure) -> BrowserFault {
    match failure {
        OperationFailure::TimedOut => BrowserFault::Timeout(stage),
        OperationFailure::Failed(message) => BrowserFault::Operation(stage, message@),
    }
}

/// The error of an operation that failed at `stage`.
pub fn operation_error(stage: &'static str, failure: OperationFailure) -> (r: BrowserError)
    ensures
        r@ == operation_fault(stage@, failure),
{
    match failure {
        OperationFailure::TimedOut => BrowserError::Timeout { stage },
        OperationFailure::Failed(message) => BrowserError::Operation { stage, message },
    }
}

/// A top-level page of the browser: its target, whether another page opened it,
/// and the address it shows.
#[derive(Debug, PartialEq, Eq)]
pub struct PageInfo {
    pub target: String,
    pub has_opener: bool,
    pub address: Option<String>,
}

/// Whether the browser itself made the page and left it blank.
pub open spec fn is_browser_blank(initial: Seq<Seq<char>>, page: PageInfo) -> bool {
    initial.contains(page.target@) || (!page.has_opener && (text::opt_view(page.address) == Some(
        "about:blank"@,
    ) || text::opt_view(page.address) == Some("chrome://newtab/"@)))
}

/// Whether a page stands beside the active one.
pub open spec fn is_other(active: Seq<char>, page: PageInfo) -> bool {
    page.target@ != active
}

fn is_blank_address(address: &Option<String>) -> (r: bool)
    ensures
        r == (text::opt_view(*address) == Some("about:blank"@) || text::opt_view(*address) == Some(
            "chrome://newtab/"@,
        )),
{
    match address {
        Some(address) => same_text(address.as_str(), "about:blank") || same_text(
            address.as_str(),
            "chrome://newtab/",
        ),
        None => false,
    }
}

/// What the pages of the browser mean for the active one: a page beside it that
/// the browser did not leave blank itself is unexpected.
pub open spec fn windows_outcome(
    active: Seq<char>,
    initial: Seq<Seq<char>>,
    pages: Seq<PageInfo>,
) -> Result<(), BrowserFault> {
    if exists|i: int|
        0 <= i < pages.len() && is_other(active, #[trigger] pages[i]) && !is_browser_blank(
            initial,
            pages[i],
        ) {
        Err(BrowserFault::UnexpectedWindow)
    } else {
        Ok(())
    }
}

/// Marks the pages to close, which are all but the active one, and fails where
/// one of them was not left blank by the browser itself.
pub fn reject_unexpected_pages(active: &str, initial: &Vec<String>, pages: &Vec<PageInfo>) -> (r: (
    Vec<bool>,
    Result<(), BrowserError>,
))
    ensures
        r.0@.len() == pages@.len(),
        forall|i: int| 0 <= i < pages@.len() ==> #[trigger] r.0@[i] == is_other(active@, pages@[i]),
        outcome_is(r.1, windows_outcome(active@, text::views(initial@), pages@)),
{
    let mut close: Vec<bool> = Vec::new();
    let mut unexpected = false;
    let mut i: usize = 0;
    while i < pages.len()
        invariant
            i <= pages@.len(),
            close@.len() == i,
            forall|j: int| 0 <= j < i ==> #[trigger] close@[j] == is_other(active@, pages@[j]),
            unexpected == exists|j: int|
                0 <= j < i && is_other(active@, #[trigger] pages@[j]) && !is_browser_blank(
                    text::views(initial@),
                    pages@[j],
                ),
        decreases pages@.len() - i,
    {
        let other = !same_text(pages[i].target.as_str(), active);
        close.push(other);
        if other {
            let blank = is_listed(initial, pages[i].target.as_str()) || (!pages[i].has_opener
                && is_blank_address(&pages[i].address));
            proof {
                assert(blank == is_browser_blank(text::views(initial@), pages@[i as int]));
                assert(is_other(active@, pages@[i as int]));
            }
            if !blank {
                unexpected = true;
            }
        }
        i = i + 1;
    }
    if unexpected {
        (close, Err(BrowserError::UnexpectedWindow))
    } else {
        (close, Ok(()))
    }
}

/// How an attempt to end the browser went.
#[derive(Debug, PartialEq, Eq)]
pub enum ExitAttempt {
    Done,
    Failed(String),
    TimedOut,
}

/// The error of an attempt that did not succeed.
pub open spec fn exit_fault(attempt: ExitAttempt) -> Result<(), BrowserFault> {
    match attempt {
        ExitAttempt::Done => Ok(()),
        ExitAttempt::Failed(message) => Err(BrowserFault::Operation("shutdown"@, message@)),
        ExitAttempt::TimedOut => Err(BrowserFault::Timeout("shutdown"@)),
    }
}

/// What an attempt to end the browser means.
pub fn exit_error(attempt: ExitAttempt) -> (r: Result<(), BrowserError>)
    ensures
        outcome_is(r, exit_fault(attempt)),
{
    match attempt {
        ExitAttempt::Done => Ok(()),
        ExitAttempt::Failed(message) => Err(BrowserError::Operation { stage: "shutdown", message }),
        ExitAttempt::TimedOut => Err(BrowserError::Timeout { stage: "shutdown" }),
    }
}

} // verus!
