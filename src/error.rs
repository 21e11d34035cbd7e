use vstd::prelude::*;

verus! {

/// The errors of the caching engine.
#[derive(Debug, Clone)]
pub enum ProxyError {
    Http(String),
    Io(String),
    Cache(String),
    DataParse(String),
    Network(String),
    File(String),
    Range(String),
    CacheMerge(String),
    Data(String),
    Request(String),
    Response(String),
    SerdeError(String),
    Parse(String),
    HttpHeader(String),
    Utf8(String),
    Json(String),
    Semaphore(String),
    /// A malformed or inconsistent byte range.
    InvalidRange(String),
    /// The origin cannot be reached and the cache cannot serve the request.
    Unavailable(String),
    /// The origin failed or cut its body short.
    Upstream(String),
    /// No cached data exists for the key.
    NotFound(String),
    /// An internal invariant was broken.
    Internal(String),
}

/// The HTTP status that an error surfaces as before the first body byte.
pub open spec fn status_of(e: ProxyError) -> u16 {
    match e {
        ProxyError::InvalidRange(_) | ProxyError::Range(_) => 416,
        ProxyError::Upstream(_) | ProxyError::Network(_) | ProxyError::Http(_) => 502,
        ProxyError::Unavailable(_) | ProxyError::NotFound(_) => 504,
        ProxyError::Request(_) | ProxyError::Parse(_) | ProxyError::HttpHeader(_)
        | ProxyError::Utf8(_) => 400,
        _ => 500,
    }
}

impl ProxyError {
    /// The HTTP status code that the error maps to.
    pub fn status_code(&self) -> (r: u16)
        ensures
            r == status_of(*self),
    {
        match self {
            ProxyError::InvalidRange(_) | ProxyError::Range(_) => 416,
            ProxyError::Upstream(_) | ProxyError::Network(_) | ProxyError::Http(_) => 502,
            ProxyError::Unavailable(_) | ProxyError::NotFound(_) => 504,
            ProxyError::Request(_) | ProxyError::Parse(_) | ProxyError::HttpHeader(_)
            | ProxyError::Utf8(_) => 400,
            _ => 500,
        }
    }

    /// The message that the error carries.
    pub fn message(&self) -> (r: &String) {
        match self {
            ProxyError::Http(s) | ProxyError::Io(s) | ProxyError::Cache(s)
            | ProxyError::DataParse(s) | ProxyError::Network(s) | ProxyError::File(s)
            | ProxyError::Range(s) | ProxyError::CacheMerge(s) | ProxyError::Data(s)
            | ProxyError::Request(s) | ProxyError::Response(s) | ProxyError::SerdeError(s)
            | ProxyError::Parse(s) | ProxyError::HttpHeader(s) | ProxyError::Utf8(s)
            | ProxyError::Json(s) | ProxyError::Semaphore(s) | ProxyError::InvalidRange(s)
            | ProxyError::Unavailable(s) | ProxyError::Upstream(s) | ProxyError::NotFound(s)
            | ProxyError::Internal(s) => s,
        }
    }
}

} // verus!
