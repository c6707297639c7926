//! The transport abstraction: the outcome classification of HTTP
//! status codes, blob URL construction, and the capability interface
//! a cluster uses to reach its nodes. The HTTP implementation itself
//! lives outside the library; test doubles implement the same trait.

use vstd::prelude::*;
use vstd::string::*;
use crate::common::{hex_of, to_hex_string};
use crate::error::BackendError;

verus! {

/// The normalized classification of a transport-level response.
#[derive(Debug, Clone, Copy, PartialEq, Eq, Structural)]
pub enum BackendResult {
    NotFound,
    NotAuthorized,
    Timeout,
    Error,
    Success,
}

/// The outcome an HTTP status code is classified as: 200, 201 and
/// 202 succeed; 401, 403 and 405 are authorization failures; 408 is
/// a timeout; everything else is an error.
pub open spec fn status_outcome(code: u16) -> BackendResult {
    if code == 200 || code == 201 || code == 202 {
        BackendResult::Success
    } else if code == 401 || code == 403 || code == 405 {
        BackendResult::NotAuthorized
    } else if code == 408 {
        BackendResult::Timeout
    } else {
        BackendResult::Error
    }
}

/// Classifies an HTTP status code as a backend outcome.
pub fn parse_status(code: u16) -> (r: BackendResult)
    ensures
        r == status_outcome(code),
{
    if code == 200 || code == 201 || code == 202 {
        BackendResult::Success
    } else if code == 400 || code == 500 {
        BackendResult::Error
    } else if code == 401 || code == 403 || code == 405 {
        BackendResult::NotAuthorized
    } else if code == 408 {
        BackendResult::Timeout
    } else {
        BackendResult::Error
    }
}

/// The URL a blob lives under: the base URL with one trailing slash
/// removed, then the bucket and the lower-case hexadecimal digest as
/// two further path segments.
pub open spec fn blob_url(base: Seq<char>, bucket: Seq<char>, sha1: Seq<u8>) -> Seq<char> {
    let trimmed = if base.len() > 0 && base.last() == '/' {
        base.drop_last()
    } else {
        base
    };
    trimmed + seq!['/'] + bucket + seq!['/'] + hex_of(sha1)
}

/// Builds the URL for a blob from an optional base URL, a bucket and
/// a digest. Without a base URL there is nothing to build: the
/// "No URL specified" error is returned. The bucket is appended as
/// given; blob table names consist of URL-safe characters, and the
/// hexadecimal digest always does.
pub fn make_blob_url(to: Option<String>, bucket: &str, sha1: &[u8]) -> (r: Result<
    String,
    BackendError,
>)
    ensures
        match r {
            Ok(u) => to matches Some(base) && u@ == blob_url(base@, bucket@, sha1@),
            Err(e) => to is None && e.description@ == "No URL specified"@,
        },
{
    match to {
        Some(base) => {
            let n: usize = base.as_str().unicode_len();
            let last_is_slash = n > 0 && base.as_str().get_char(n - 1) == '/';
            let m = if last_is_slash {
                n - 1
            } else {
                n
            };
            let mut out = String::from_str(base.as_str().substring_char(0, m));
            out.append("/");
            out.append(bucket);
            out.append("/");
            let hex = to_hex_string(sha1);
            out.append(hex.as_str());
            proof {
                reveal_strlit("/");
                if n > 0 && base@.last() == '/' {
                    assert(base@.subrange(0, m as int) =~= base@.drop_last());
                } else {
                    assert(base@.subrange(0, m as int) =~= base@);
                }
                assert(out@ =~= blob_url(base@, bucket@, sha1@));
            }
            Ok(out)
        },
        None => Err(BackendError::new(String::from_str("No URL specified"))),
    }
}

/// What a cluster needs from its transport: executing a SQL payload
/// against a URL, and uploading, deleting and fetching a blob. The
/// production implementation performs HTTP; tests substitute doubles.
/// Nothing is promised of these calls: every caller states what holds
/// whatever they return.
pub trait Backend {
    /// POSTs the payload to the URL and returns the response body.
    fn execute(&self, to: Option<String>, payload: String) -> Result<String, BackendError>;

    /// PUTs blob content under `{url}/{bucket}/{hex(sha1)}`.
    fn upload_blob(&self, to: Option<String>, bucket: &str, sha1: &[u8], content: &[u8]) -> Result<
        BackendResult,
        BackendError,
    >;

    /// DELETEs the blob under `{url}/{bucket}/{hex(sha1)}`.
    fn delete_blob(&self, to: Option<String>, bucket: &str, sha1: &[u8]) -> Result<
        BackendResult,
        BackendError,
    >;

    /// GETs the blob under `{url}/{bucket}/{hex(sha1)}`: the outcome
    /// and the content.
    fn fetch_blob(&self, to: Option<String>, bucket: &str, sha1: &[u8]) -> Result<
        (BackendResult, Vec<u8>),
        BackendError,
    >;
}

/// The connection settings an HTTP transport is built from: direct
/// connections, or everything through one proxy.
pub struct HTTPClientFactory {
    pub use_proxy: bool,
    pub proxy_host: String,
    pub proxy_port: u16,
}

impl HTTPClientFactory {
    /// Settings for direct connections.
    pub fn new() -> (r: HTTPClientFactory)
        ensures
            !r.use_proxy,
            r.proxy_host@ == Seq::<char>::empty(),
            r.proxy_port == 0,
    {
        HTTPClientFactory { use_proxy: false, proxy_host: String::new(), proxy_port: 0 }
    }

    /// Settings that route every request through the given proxy.
    pub fn with_proxy(host: &str, port: u16) -> (r: HTTPClientFactory)
        ensures
            r.use_proxy,
            r.proxy_host@ == host@,
            r.proxy_port == port,
    {
        HTTPClientFactory { use_proxy: true, proxy_host: String::from_str(host), proxy_port: port }
    }
}

/// The production transport's configuration. The HTTP calls
/// themselves are made by the binary that embeds the library; the
/// cluster only carries these settings.
pub struct HTTPBackend {
    pub client_factory: HTTPClientFactory,
}

/// The default transport configuration.
pub type DefaultHTTPBackend = HTTPBackend;

impl HTTPBackend {
    /// A transport configuration for direct connections.
    pub fn new() -> (r: DefaultHTTPBackend)
        ensures
            !r.client_factory.use_proxy,
    {
        HTTPBackend { client_factory: HTTPClientFactory::new() }
    }

    /// A transport configuration that uses the given proxy.
    pub fn with_proxy(host: &str, port: u16) -> (r: HTTPBackend)
        ensures
            r.client_factory.use_proxy,
            r.client_factory.proxy_host@ == host@,
            r.client_factory.proxy_port == port,
    {
        HTTPBackend { client_factory: HTTPClientFactory::with_proxy(host, port) }
    }
}

} // verus!
