//! Web addresses: a record of what the library reads of a URL, and the URL
//! operations that the `url` crate performs.

use crate::text;
use crate::text::{chars_of, copy_opt, decimal_string, lower_text, same_text, text_of};
use vstd::prelude::*;

verus! {

// ------------------------------------------------------------------ the model

/// The host of a URL.
#[derive(Debug, PartialEq, Eq)]
pub enum Host {
    Domain(String),
    Ipv4([u8; 4]),
    Ipv6([u16; 8]),
}

/// A host by its characters, octets or segments.
#[verifier::ext_equal]
pub enum HostModel {
    Domain(Seq<char>),
    Ipv4(Seq<u8>),
    Ipv6(Seq<u16>),
}

impl View for Host {
    type V = HostModel;

    open spec fn view(&self) -> HostModel {
        match self {
            Host::Domain(name) => HostModel::Domain(name@),
            Host::Ipv4(octets) => HostModel::Ipv4(octets@),
            Host::Ipv6(segments) => HostModel::Ipv6(segments@),
        }
    }
}

/// What a parsed URL consists of, as far as the library reads it.
#[verifier::ext_equal]
pub struct UrlModel {
    pub href: Seq<char>,
    pub scheme: Seq<char>,
    pub username: Seq<char>,
    pub password: Option<Seq<char>>,
    pub host: Option<HostModel>,
    pub host_text: Option<Seq<char>>,
    pub port: Option<u16>,
    pub fragment: Option<Seq<char>>,
}

/// A parsed URL: its serialization and the parts of it that decisions rest on.
#[derive(Debug, PartialEq, Eq)]
pub struct Url {
    href: String,
    scheme: String,
    username: String,
    password: Option<String>,
    host: Option<Host>,
    host_text: Option<String>,
    port: Option<u16>,
    fragment: Option<String>,
}

impl View for Url {
    type V = UrlModel;

    closed spec fn view(&self) -> UrlModel {
        UrlModel {
            href: self.href@,
            scheme: self.scheme@,
            username: self.username@,
            password: text::opt_view(self.password),
            host: match self.host {
                Some(host) => Some(host@),
                None => None,
            },
            host_text: text::opt_view(self.host_text),
            port: self.port,
            fragment: text::opt_view(self.fragment),
        }
    }
}

/// URLs by their models.
pub open spec fn url_views(urls: Seq<Url>) -> Seq<UrlModel> {
    Seq::new(urls.len(), |i: int| urls[i]@)
}

// ------------------------------------------------------- what the crate gives

/// What `url::Url::parse` makes of a text.
pub uninterp spec fn url_parse(input: Seq<char>) -> Option<UrlModel>;

/// What `url::Url::join` makes of a base and a reference, both texts.
pub uninterp spec fn url_join(base: Seq<char>, reference: Seq<char>) -> Option<Seq<char>>;

/// The serialization of a URL after `url::Url::set_fragment(None)`.
pub uninterp spec fn url_without_fragment(href: Seq<char>) -> Option<Seq<char>>;

/// The serialization of a URL after `url::Url::set_query(None)`.
pub uninterp spec fn url_without_query(href: Seq<char>) -> Option<Seq<char>>;

/// The serialization of a URL after `url::Url::set_username("")`.
pub uninterp spec fn url_without_username(href: Seq<char>) -> Option<Seq<char>>;

/// The serialization of a URL after `url::Url::set_password(None)`.
pub uninterp spec fn url_without_password(href: Seq<char>) -> Option<Seq<char>>;

/// The decoded query pairs that `url::Url::query_pairs` walks over.
pub uninterp spec fn url_query_pairs(href: Seq<char>) -> Option<Seq<(Seq<char>, Seq<char>)>>;

/// `url::Url::parse` and the accessors of the result. The record depends on the
/// input alone; there is none where the input is no URL. A fragment comes only
/// with a `#` in the input. Which texts are URLs and how they are taken apart is
/// left to the crate.
#[verifier::external_body]
fn parse_record(input: &str) -> (r: Option<Url>)
    ensures
        match r {
            Some(url) => url_parse(input@) == Some(url@),
            None => url_parse(input@) is None,
        },
        r matches Some(url) ==> !input@.contains('#') ==> url@.fragment is None,
{
    let url = ::url::Url::parse(input).ok()?;
    let host = url.host().map(|host| match host {
        ::url::Host::Domain(name) => Host::Domain(name.to_string()),
        ::url::Host::Ipv4(address) => Host::Ipv4(address.octets()),
        ::url::Host::Ipv6(address) => Host::Ipv6(address.segments()),
    });
    Some(Url {
        href: url.to_string(), scheme: url.scheme().to_string(),
        username: url.username().to_string(), password: url.password().map(str::to_string), host,
        host_text: url.host_str().map(str::to_string), port: url.port_or_known_default(),
        fragment: url.fragment().map(str::to_string),
    })
}

/// `url::Url::join` on the URL that `base` serializes. There is no result where
/// either text does not parse. Resolution itself is left to the crate.
#[verifier::external_body]
fn join_text(base: &str, reference: &str) -> (r: Option<String>)
    ensures
        text::opt_view(r) == url_join(base@, reference@),
{
    let base = ::url::Url::parse(base).ok()?;
    base.join(reference).ok().map(String::from)
}

/// `url::Url::set_fragment(None)` on the URL that `href` serializes. What is
/// left holds no `#`: the crate writes one only in front of a fragment.
#[verifier::external_body]
fn drop_fragment(href: &str) -> (r: Option<String>)
    ensures
        text::opt_view(r) == url_without_fragment(href@),
        r matches Some(rest) ==> !rest@.contains('#'),
{
    let mut url = ::url::Url::parse(href).ok()?;
    url.set_fragment(None);
    Some(String::from(url))
}

/// `url::Url::set_query(None)` on the URL that `href` serializes. Where `href`
/// holds no `#`, neither does what is left, and it holds no `?` either: the crate
/// writes a `?` only in front of a query or inside a fragment.
#[verifier::external_body]
fn drop_query(href: &str) -> (r: Option<String>)
    ensures
        text::opt_view(r) == url_without_query(href@),
        r matches Some(rest) ==> !href@.contains('#') ==> !rest@.contains('?') && !rest@.contains(
            '#',
        ),
{
    let mut url = ::url::Url::parse(href).ok()?;
    url.set_query(None);
    Some(String::from(url))
}

/// `url::Url::set_username("")` on the URL that `href` serializes. Where the
/// crate refuses the change, the serialization is returned as it is. What the
/// text reads back as is left to the crate: it is read again before it is shown.
#[verifier::external_body]
fn drop_username(href: &str) -> (r: Option<String>)
    ensures
        text::opt_view(r) == url_without_username(href@),
{
    let mut url = ::url::Url::parse(href).ok()?;
    let _ = url.set_username("");
    Some(String::from(url))
}

/// `url::Url::set_password(None)` on the URL that `href` serializes. Where the
/// crate refuses the change, the serialization is returned as it is. What the
/// text reads back as is left to the crate: it is read again before it is shown.
#[verifier::external_body]
fn drop_password(href: &str) -> (r: Option<String>)
    ensures
        text::opt_view(r) == url_without_password(href@),
{
    let mut url = ::url::Url::parse(href).ok()?;
    let _ = url.set_password(None);
    Some(String::from(url))
}

/// Pairs of texts by their characters.
pub open spec fn pair_views(pairs: Seq<(String, String)>) -> Seq<(Seq<char>, Seq<char>)> {
    Seq::new(pairs.len(), |i: int| (pairs[i].0@, pairs[i].1@))
}

/// `url::Url::query_pairs` on the URL that `href` serializes, in order. How a
/// query is cut and decoded is left to the crate.
#[verifier::external_body]
fn read_query_pairs(href: &str) -> (r: Option<Vec<(String, String)>>)
    ensures
        match r {
            Some(pairs) => url_query_pairs(href@) == Some(pair_views(pairs@)),
            None => url_query_pairs(href@) is None,
        },
{
    let url = ::url::Url::parse(href).ok()?;
    Some(url.query_pairs().map(|(key, value)| (key.into_owned(), value.into_owned())).collect())
}

// ------------------------------------------------------------------- the type

impl Clone for Url {
    fn clone(&self) -> (r: Url)
        ensures
            r@ == self@,
    {
        Url {
            href: self.href.clone(),
            scheme: self.scheme.clone(),
            username: self.username.clone(),
            password: copy_opt(&self.password),
            host: match &self.host {
                Some(Host::Domain(name)) => Some(Host::Domain(name.clone())),
                Some(Host::Ipv4(octets)) => Some(Host::Ipv4(*octets)),
                Some(Host::Ipv6(segments)) => Some(Host::Ipv6(*segments)),
                None => None,
            },
            host_text: copy_opt(&self.host_text),
            port: self.port,
            fragment: copy_opt(&self.fragment),
        }
    }
}

impl Url {
    /// Parses a URL.
    pub fn parse(input: &str) -> (r: Option<Url>)
        ensures
            match r {
                Some(url) => url_parse(input@) == Some(url@),
                None => url_parse(input@) is None,
            },
    {
        parse_record(input)
    }

    /// Resolves a reference against this URL.
    pub fn join(&self, reference: &str) -> (r: Option<Url>)
        ensures
            match r {
                Some(url) => joined(self@, reference@) == Some(url@),
                None => joined(self@, reference@) is None,
            },
    {
        match join_text(self.href.as_str(), reference) {
            Some(href) => parse_record(href.as_str()),
            None => None,
        }
    }

    /// The decoded pairs of the query.
    pub fn query_pairs(&self) -> (r: Option<Vec<(String, String)>>)
        ensures
            match r {
                Some(pairs) => url_query_pairs(self@.href) == Some(pair_views(pairs@)),
                None => url_query_pairs(self@.href) is None,
            },
    {
        read_query_pairs(self.href.as_str())
    }

    /// The serialization.
    pub fn as_str(&self) -> (r: &str)
        ensures
            r@ == self@.href,
    {
        self.href.as_str()
    }

    /// The host as it stands in the serialization.
    pub fn host_str(&self) -> (r: Option<&str>)
        ensures
            match r {
                Some(host) => self@.host_text == Some(host@),
                None => self@.host_text is None,
            },
    {
        match &self.host_text {
            Some(host) => Some(host.as_str()),
            None => None,
        }
    }

    /// The host.
    pub fn host(&self) -> (r: &Option<Host>)
        ensures
            match r {
                Some(host) => self@.host == Some(host@),
                None => self@.host is None,
            },
    {
        &self.host
    }

    /// The port, or the one that the scheme implies.
    pub fn port_or_known_default(&self) -> (r: Option<u16>)
        ensures
            r == self@.port,
    {
        self.port
    }

    /// The fragment.
    pub fn fragment(&self) -> (r: Option<&str>)
        ensures
            match r {
                Some(fragment) => self@.fragment == Some(fragment@),
                None => self@.fragment is None,
            },
    {
        match &self.fragment {
            Some(fragment) => Some(fragment.as_str()),
            None => None,
        }
    }

    /// Whether the scheme is `name`.
    pub fn has_scheme(&self, name: &str) -> (r: bool)
        ensures
            r == (self@.scheme == name@),
    {
        same_text(self.scheme.as_str(), name)
    }

    /// Whether the scheme is HTTP or HTTPS.
    pub fn is_web(&self) -> (r: bool)
        ensures
            r == is_web(self@),
    {
        self.has_scheme("http") || self.has_scheme("https")
    }

    /// Whether the URL carries a user name or a password.
    pub fn has_credentials(&self) -> (r: bool)
        ensures
            r == has_credentials(self@),
    {
        let name = chars_of(self.username.as_str());
        proof {
            assert(name@.len() == 0 <==> name@ =~= Seq::empty());
        }
        name.len() > 0 || self.password.is_some()
    }

    /// The host and port that decide whether two URLs are the same site.
    pub fn host_key(&self) -> (r: String)
        ensures
            r@ == host_key(self@),
    {
        let host = match &self.host_text {
            Some(host) => lower_text(host.as_str()),
            None => Vec::new(),
        };
        let port = match self.port {
            Some(port) => port,
            None => 0,
        };
        let mut out = text_of(&host);
        out.append(":");
        let digits = decimal_string(port as u64);
        out.append(digits.as_str());
        proof {
            if self@.host_text is None {
                assert(host@ =~= text::lower(Seq::<char>::empty()));
            }
            assert(out@ =~= host_key(self@));
        }
        out
    }

    /// This URL without its fragment.
    pub fn without_fragment(&self) -> (r: Option<Url>)
        ensures
            match r {
                Some(url) => without_fragment(self@) == Some(url@) && url@.fragment is None,
                None => without_fragment(self@) is None,
            },
    {
        if self.fragment.is_none() {
            return Some(self.clone());
        }
        match drop_fragment(self.href.as_str()) {
            Some(href) => parse_record(href.as_str()),
            None => None,
        }
    }

    /// The address without its fragment and query, for messages.
    pub fn address(&self) -> (r: String)
        ensures
            r@ == address(self@.href),
            !r@.contains('?'),
            !r@.contains('#'),
    {
        bare_address(self.href.as_str())
    }

    /// The address without credentials, fragment and query, for messages.
    pub fn public_address(&self) -> (r: String)
        ensures
            r@ == public_address(self@.href),
            shows_nothing_private(r@),
    {
        proof {
            reads_as_public(self.href@);
        }
        let shown = match drop_username(self.href.as_str()) {
            Some(anonymous) => match drop_password(anonymous.as_str()) {
                Some(open) => bare_address(open.as_str()),
                None => String::new(),
            },
            None => String::new(),
        };
        match Url::parse(shown.as_str()) {
            Some(url) => if url.has_credentials() {
                String::new()
            } else {
                shown
            },
            None => String::new(),
        }
    }
}

/// Whether the scheme is HTTP or HTTPS.
pub open spec fn is_web(url: UrlModel) -> bool {
    url.scheme == "http"@ || url.scheme == "https"@
}

/// Whether a user name or a password is given.
pub open spec fn has_credentials(url: UrlModel) -> bool {
    url.username != Seq::<char>::empty() || url.password is Some
}

/// The host in lower case, a colon, and the port; an absent host is empty, an
/// absent port is zero.
pub open spec fn host_key(url: UrlModel) -> Seq<char> {
    let host = match url.host_text {
        Some(host) => host,
        None => Seq::empty(),
    };
    let port: nat = match url.port {
        Some(port) => port as nat,
        None => 0,
    };
    text::lower(host) + ":"@ + text::decimal_text(port)
}

/// A reference resolved against a URL.
pub open spec fn joined(base: UrlModel, reference: Seq<char>) -> Option<UrlModel> {
    match url_join(base.href, reference) {
        Some(href) => url_parse(href),
        None => None,
    }
}

/// A URL without its fragment.
pub open spec fn without_fragment(url: UrlModel) -> Option<UrlModel> {
    if url.fragment is None {
        Some(url)
    } else {
        match url_without_fragment(url.href) {
            Some(href) => url_parse(href),
            None => None,
        }
    }
}

/// An address without fragment and query; nothing where either would be left.
pub open spec fn address(href: Seq<char>) -> Seq<char> {
    match url_without_fragment(href) {
        Some(whole) => match url_without_query(whole) {
            Some(rest) => if rest.contains('?') || rest.contains('#') {
                Seq::empty()
            } else {
                rest
            },
            None => Seq::empty(),
        },
        None => Seq::empty(),
    }
}

/// A URL's text after its user name, password, fragment and query were taken
/// out one after the other.
pub open spec fn stripped(href: Seq<char>) -> Seq<char> {
    match url_without_username(href) {
        Some(anonymous) => match url_without_password(anonymous) {
            Some(open) => address(open),
            None => Seq::empty(),
        },
        None => Seq::empty(),
    }
}

/// Whether a text is a URL without credentials, query and fragment.
pub open spec fn is_bare_address(shown: Seq<char>) -> bool {
    &&& !shown.contains('?')
    &&& !shown.contains('#')
    &&& match url_parse(shown) {
        Some(url) => !has_credentials(url),
        None => false,
    }
}

/// An address without credentials, fragment and query; nothing where what is
/// left of it is no such address.
pub open spec fn public_address(href: Seq<char>) -> Seq<char> {
    if is_bare_address(stripped(href)) {
        stripped(href)
    } else {
        Seq::empty()
    }
}

/// Whether a text gives away no credentials, query or fragment: it is a URL
/// without them, or empty.
pub open spec fn shows_nothing_private(shown: Seq<char>) -> bool {
    shown.len() == 0 || is_bare_address(shown)
}

/// Whatever a URL holds, what is shown of it has no query and no fragment, and in
/// public no credentials either.
pub proof fn reads_as_public(href: Seq<char>)
    ensures
        !address(href).contains('?'),
        !address(href).contains('#'),
        shows_nothing_private(public_address(href)),
        !public_address(href).contains('?'),
        !public_address(href).contains('#'),
{
    nothing_in_empty();
}

proof fn nothing_in_empty()
    ensures
        forall|c: char| !#[trigger] Seq::<char>::empty().contains(c),
{
}

fn bare_address(href: &str) -> (r: String)
    ensures
        r@ == address(href@),
        !r@.contains('?'),
        !r@.contains('#'),
{
    proof {
        nothing_in_empty();
    }
    match drop_fragment(href) {
        Some(whole) => match drop_query(whole.as_str()) {
            Some(rest) => rest,
            None => String::new(),
        },
        None => String::new(),
    }
}

} // verus!
