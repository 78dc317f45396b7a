//! The connection settings of the redis cache, read from its URI.
use url::{ParseError, Url};
use vstd::prelude::*;

verus! {

#[verifier::external_type_specification]
#[verifier::external_body]
pub struct ExParseError(ParseError);

/// The parts that `Url::parse` finds in `input`: scheme, password, host and
/// explicit port; `None` when the text is not a URL.
pub uninterp spec fn url_parts(input: Seq<char>) -> Option<
    (Seq<char>, Option<Seq<char>>, Option<Seq<char>>, Option<u16>),
>;

/// The view of an optional string.
pub open spec fn string_opt(o: Option<String>) -> Option<Seq<char>> {
    match o {
        Some(s) => Some(s@),
        None => None,
    }
}

/// The view of an optional string slice.
pub open spec fn str_opt(o: Option<&str>) -> Option<Seq<char>> {
    match o {
        Some(s) => Some(s@),
        None => None,
    }
}

/// Relies on `Url::parse` to parse `input`, and on `Url::scheme`,
/// `Url::password`, `Url::host_str` and `Url::port` to read the parts of the
/// parsed URL; the parts depend on the text alone.
#[verifier::external_body]
fn url_parts_of(input: &str) -> (r: Result<(String, Option<String>, Option<String>, Option<u16>), ParseError>)
    ensures
        r is Err <==> url_parts(input@) is None,
        r is Ok ==> url_parts(input@) == Some(
            (r->Ok_0.0@, string_opt(r->Ok_0.1), string_opt(r->Ok_0.2), r->Ok_0.3),
        ),
{
    match Url::parse(input) {
        Ok(url) => Ok((
            url.scheme().to_string(),
            url.password().map(|p| p.to_string()),
            url.host_str().map(|h| h.to_string()),
            url.port(),
        )),
        Err(e) => Err(e),
    }
}

/// Where and how to reach the redis server.
pub struct RedisUri {
    pub is_tls: bool,
    pub password: Option<String>,
    pub host: String,
    pub port: u16,
}

/// Why a redis URI was refused.
#[derive(Debug)]
pub enum RedisUriError {
    /// The text is not a URL.
    Malformed(ParseError),
    /// The scheme is neither `redis` nor `rediss`; it is given.
    InvalidScheme(String),
    /// The URL names no host.
    MissingHost,
    /// The URL names no port.
    MissingPort,
}

/// What the settings read from the parts of a URL are: an error naming a
/// scheme other than `redis` and `rediss`, else an error for a missing host,
/// else for a missing port, else the settings, with TLS for `rediss`.
pub open spec fn settings_from(
    r: Result<RedisUri, RedisUriError>,
    scheme: Seq<char>,
    password: Option<Seq<char>>,
    host: Option<Seq<char>>,
    port: Option<u16>,
) -> bool {
    if scheme != "redis"@ && scheme != "rediss"@ {
        &&& r is Err
        &&& r->Err_0 is InvalidScheme
        &&& r->Err_0->InvalidScheme_0@ == scheme
    } else if host is None {
        r is Err && r->Err_0 is MissingHost
    } else if port is None {
        r is Err && r->Err_0 is MissingPort
    } else {
        &&& r is Ok
        &&& r->Ok_0.is_tls == (scheme == "rediss"@)
        &&& r->Ok_0.host@ == host->0
        &&& r->Ok_0.port == port->0
        &&& string_opt(r->Ok_0.password) == password
    }
}

/// The settings from the parts of a URL: the scheme must be `redis`, or
/// `rediss` for TLS, and the host and the port must be given.
pub fn uri_from_parts(
    scheme: &str,
    password: Option<&str>,
    host: Option<&str>,
    port: Option<u16>,
) -> (r: Result<RedisUri, RedisUriError>)
    ensures
        settings_from(r, scheme@, str_opt(password), str_opt(host), port),
{
    proof {
        reveal_strlit("redis");
        reveal_strlit("rediss");
        assert("redis"@.len() != "rediss"@.len());
    }
    let given = scheme.to_owned();
    let plain = String::from_str("redis");
    let secure = String::from_str("rediss");
    let is_tls = if given.eq(&plain) {
        false
    } else if given.eq(&secure) {
        true
    } else {
        return Err(RedisUriError::InvalidScheme(given));
    };
    let password = match password {
        Some(p) => Some(p.to_owned()),
        None => None,
    };
    let host = match host {
        Some(h) => h.to_owned(),
        None => return Err(RedisUriError::MissingHost),
    };
    let port = match port {
        Some(p) => p,
        None => return Err(RedisUriError::MissingPort),
    };
    Ok(RedisUri { is_tls, password, host, port })
}

/// Reads the settings from a redis URI such as `rediss://:secret@host:6379`.
pub fn parse_redis_uri(redis_uri: &str) -> (r: Result<RedisUri, RedisUriError>)
    ensures
        match url_parts(redis_uri@) {
            None => r is Err && r->Err_0 is Malformed,
            Some(parts) => settings_from(r, parts.0, parts.1, parts.2, parts.3),
        },
{
    let (scheme, password, host, port) = match url_parts_of(redis_uri) {
        Ok(parts) => parts,
        Err(e) => return Err(RedisUriError::Malformed(e)),
    };
    let password = match &password {
        Some(p) => Some(p.as_str()),
        None => None,
    };
    let host = match &host {
        Some(h) => Some(h.as_str()),
        None => None,
    };
    uri_from_parts(scheme.as_str(), password, host, port)
}

} // verus!
