//! Request headers and site addresses derived from a URL.

use vstd::prelude::*;
use vstd::string::*;
use crate::extract::opt_view;

verus! {

#[verifier::external_type_specification]
#[verifier::external_body]
pub struct ExUrlParseError(url::ParseError);

/// Why no host could be derived from a URL.
#[derive(Clone, Copy, Debug, PartialEq, Eq, Structural)]
pub enum UrlError {
    /// The text is not an absolute URL.
    Malformed,
    /// The URL parses but names no host.
    NoHost,
}

/// `None` when `url` does not parse as an absolute URL; otherwise its host,
/// if it has one, as text.
pub uninterp spec fn parsed_host(url: Seq<char>) -> Option<Option<Seq<char>>>;

/// Relies on `url::Url::parse` and `Url::host_str`.
#[verifier::external_body]
fn parse_host(url: &str) -> (r: Result<Option<String>, url::ParseError>)
    ensures
        match r {
            Ok(h) => parsed_host(url@) == Some(opt_view(h)),
            Err(_) => parsed_host(url@) is None,
        },
{
    url::Url::parse(url).map(|u| u.host_str().map(String::from))
}

/// What `host_of` owes for `url`.
pub open spec fn host_result(url: Seq<char>) -> Result<Seq<char>, UrlError> {
    match parsed_host(url) {
        None => Err(UrlError::Malformed),
        Some(None) => Err(UrlError::NoHost),
        Some(Some(h)) => Ok(h),
    }
}

/// The host named by `url`.
pub fn host_of(url: &str) -> (r: Result<String, UrlError>)
    ensures
        match r {
            Ok(h) => host_result(url@) == Ok::<_, UrlError>(h@),
            Err(e) => host_result(url@) == Err::<Seq<char>, _>(e),
        },
{
    match parse_host(url) {
        Ok(Some(h)) => Ok(h),
        Ok(None) => Err(UrlError::NoHost),
        Err(_) => Err(UrlError::Malformed),
    }
}

pub const ACCEPT: &'static str = "image/png,image/svg+xml,image/*;q=0.8,video/*;q=0.8,*/*;q=0.5";
pub const ACCEPT_ENCODING: &'static str = "gzip, deflate, br";
pub const USER_AGENT: &'static str = "Mozilla/5.0 (Macintosh; Intel Mac OS X 10_15_6) AppleWebKit/605.1.15 (KHTML, like Gecko) Version/13.1.2 Safari/605.1.15";
pub const ACCEPT_LANGUAGE: &'static str = "en-ca";
pub const REFERER: &'static str = "https://manganelo.com/";
pub const CONNECTION: &'static str = "keep-alive";

/// The headers sent with every request to host `host`, in order.
pub open spec fn header_profile(host: Seq<char>) -> Seq<(Seq<char>, Seq<char>)> {
    seq![
        ("Accept"@, ACCEPT@),
        ("Accept-Encoding"@, ACCEPT_ENCODING@),
        ("User-Agent"@, USER_AGENT@),
        ("Host"@, host),
        ("Accept-Language"@, ACCEPT_LANGUAGE@),
        ("Referer"@, REFERER@),
        ("Connection"@, CONNECTION@),
    ]
}

pub open spec fn pair_views(v: Seq<(String, String)>) -> Seq<(Seq<char>, Seq<char>)> {
    v.map_values(|p: (String, String)| (p.0@, p.1@))
}

fn header(name: &str, value: &str) -> (r: (String, String))
    ensures
        r.0@ == name@,
        r.1@ == value@,
{
    (String::from_str(name), String::from_str(value))
}

/// The request headers for fetching `url`, as (name, value) pairs; the
/// `Host` header carries the URL's own host.
pub fn get_request_headers(url: &str) -> (r: Result<Vec<(String, String)>, UrlError>)
    ensures
        match r {
            Ok(v) => host_result(url@) is Ok && pair_views(v@) == header_profile(
                host_result(url@)->Ok_0,
            ),
            Err(e) => host_result(url@) == Err::<Seq<char>, _>(e),
        },
{
    let host = host_of(url)?;
    let mut v: Vec<(String, String)> = Vec::new();
    v.push(header("Accept", ACCEPT));
    v.push(header("Accept-Encoding", ACCEPT_ENCODING));
    v.push(header("User-Agent", USER_AGENT));
    v.push(header("Host", host.as_str()));
    v.push(header("Accept-Language", ACCEPT_LANGUAGE));
    v.push(header("Referer", REFERER));
    v.push(header("Connection", CONNECTION));
    assert(pair_views(v@) =~= header_profile(host@));
    Ok(v)
}

/// The site root `https://<host>` of the URL.
pub fn site_root(url: &str) -> (r: Result<String, UrlError>)
    ensures
        match r {
            Ok(s) => host_result(url@) is Ok && s@ == "https://"@ + host_result(url@)->Ok_0,
            Err(e) => host_result(url@) == Err::<Seq<char>, _>(e),
        },
{
    let host = host_of(url)?;
    let mut s = String::from_str("https://");
    s.append(host.as_str());
    Ok(s)
}

/// A site-relative link resolved against a site root.
pub fn resolve_link(root: &str, link: &str) -> (r: String)
    ensures
        r@ == root@ + link@,
{
    let mut s = String::from_str(root);
    s.append(link);
    s
}

} // verus!
