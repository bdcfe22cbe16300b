//! The request line's closed vocabularies, methods and protocol versions, and
//! the errors that decoding a request can end in.
use vstd::prelude::*;
use crate::text::{chars_of, eq_ignore_case, eq_ignoring_case, same_ignoring_case, string_of};

verus! {

/// Why a request could not be decoded. The first stage that fails decides it.
#[derive(Debug)]
pub enum HttpRequestValidationErr {
    /// The request line could not be read: the stream failed, was not text,
    /// or ended before any byte came.
    Headline(String),
    MethodMissing,
    MethodMalformed,
    ResourceMissing,
    /// Kept for resource checks; normalisation never raises it.
    ResourceMalformed,
    HttpVersionMissing,
    HttpVersionMalformed,
    HeadersMalformed,
    BodyMalformed,
    /// A line ran past the maximum length before its terminator.
    LineTooLong,
}

/// The variant of a decoding error, without the text a `Headline` carries.
#[derive(Debug, Clone, Copy, PartialEq, Eq, Structural)]
pub enum ErrorKind {
    Headline,
    MethodMissing,
    MethodMalformed,
    ResourceMissing,
    ResourceMalformed,
    HttpVersionMissing,
    HttpVersionMalformed,
    HeadersMalformed,
    BodyMalformed,
    LineTooLong,
}

impl HttpRequestValidationErr {
    pub open spec fn kind(&self) -> ErrorKind {
        match self {
            HttpRequestValidationErr::Headline(_) => ErrorKind::Headline,
            HttpRequestValidationErr::MethodMissing => ErrorKind::MethodMissing,
            HttpRequestValidationErr::MethodMalformed => ErrorKind::MethodMalformed,
            HttpRequestValidationErr::ResourceMissing => ErrorKind::ResourceMissing,
            HttpRequestValidationErr::ResourceMalformed => ErrorKind::ResourceMalformed,
            HttpRequestValidationErr::HttpVersionMissing => ErrorKind::HttpVersionMissing,
            HttpRequestValidationErr::HttpVersionMalformed => ErrorKind::HttpVersionMalformed,
            HttpRequestValidationErr::HeadersMalformed => ErrorKind::HeadersMalformed,
            HttpRequestValidationErr::BodyMalformed => ErrorKind::BodyMalformed,
            HttpRequestValidationErr::LineTooLong => ErrorKind::LineTooLong,
        }
    }

    /// The variant of this error.
    pub fn error_kind(&self) -> (r: ErrorKind)
        ensures
            r == self.kind(),
    {
        match self {
            HttpRequestValidationErr::Headline(_) => ErrorKind::Headline,
            HttpRequestValidationErr::MethodMissing => ErrorKind::MethodMissing,
            HttpRequestValidationErr::MethodMalformed => ErrorKind::MethodMalformed,
            HttpRequestValidationErr::ResourceMissing => ErrorKind::ResourceMissing,
            HttpRequestValidationErr::ResourceMalformed => ErrorKind::ResourceMalformed,
            HttpRequestValidationErr::HttpVersionMissing => ErrorKind::HttpVersionMissing,
            HttpRequestValidationErr::HttpVersionMalformed => ErrorKind::HttpVersionMalformed,
            HttpRequestValidationErr::HeadersMalformed => ErrorKind::HeadersMalformed,
            HttpRequestValidationErr::BodyMalformed => ErrorKind::BodyMalformed,
            HttpRequestValidationErr::LineTooLong => ErrorKind::LineTooLong,
        }
    }
}

#[derive(Debug, Clone, Copy, PartialEq, Eq, Structural)]
pub enum HttpMethod {
    GET,
    PUT,
    PATCH,
    POST,
    DELETE,
}

/// The canonical (upper-case) token of a method.
pub open spec fn method_name(m: HttpMethod) -> Seq<char> {
    match m {
        HttpMethod::GET => seq!['G', 'E', 'T'],
        HttpMethod::PUT => seq!['P', 'U', 'T'],
        HttpMethod::PATCH => seq!['P', 'A', 'T', 'C', 'H'],
        HttpMethod::POST => seq!['P', 'O', 'S', 'T'],
        HttpMethod::DELETE => seq!['D', 'E', 'L', 'E', 'T', 'E'],
    }
}

/// The method a token names, ignoring ASCII case.
pub open spec fn method_of(t: Seq<char>) -> Option<HttpMethod> {
    if eq_ignoring_case(t, method_name(HttpMethod::GET)) {
        Some(HttpMethod::GET)
    } else if eq_ignoring_case(t, method_name(HttpMethod::PUT)) {
        Some(HttpMethod::PUT)
    } else if eq_ignoring_case(t, method_name(HttpMethod::POST)) {
        Some(HttpMethod::POST)
    } else if eq_ignoring_case(t, method_name(HttpMethod::PATCH)) {
        Some(HttpMethod::PATCH)
    } else if eq_ignoring_case(t, method_name(HttpMethod::DELETE)) {
        Some(HttpMethod::DELETE)
    } else {
        None
    }
}

pub open spec fn method_result(t: Seq<char>) -> Result<HttpMethod, HttpRequestValidationErr> {
    match method_of(t) {
        Some(m) => Ok(m),
        None => Err(HttpRequestValidationErr::MethodMalformed),
    }
}

impl HttpMethod {
    /// Decodes a method token, in any letter case.
    pub fn try_from(method_str: &str) -> (r: Result<HttpMethod, HttpRequestValidationErr>)
        ensures
            r == method_result(method_str@),
    {
        let chars = chars_of(method_str);
        HttpMethod::from_chars(&chars)
    }

    pub fn from_chars(t: &Vec<char>) -> (r: Result<HttpMethod, HttpRequestValidationErr>)
        ensures
            r == method_result(t@),
    {
        if eq_ignore_case(t, &vec!['G', 'E', 'T']) {
            Ok(HttpMethod::GET)
        } else if eq_ignore_case(t, &vec!['P', 'U', 'T']) {
            Ok(HttpMethod::PUT)
        } else if eq_ignore_case(t, &vec!['P', 'O', 'S', 'T']) {
            Ok(HttpMethod::POST)
        } else if eq_ignore_case(t, &vec!['P', 'A', 'T', 'C', 'H']) {
            Ok(HttpMethod::PATCH)
        } else if eq_ignore_case(t, &vec!['D', 'E', 'L', 'E', 'T', 'E']) {
            Ok(HttpMethod::DELETE)
        } else {
            Err(HttpRequestValidationErr::MethodMalformed)
        }
    }
}

/// A token names a method exactly when it spells that method's name up to
/// ASCII case; any other token is rejected as a malformed method.
pub proof fn lemma_method_any_case(t: Seq<char>, m: HttpMethod)
    ensures
        method_result(t) == Ok::<HttpMethod, HttpRequestValidationErr>(m) <==> eq_ignoring_case(
            t,
            method_name(m),
        ),
        (forall|k: HttpMethod| !eq_ignoring_case(t, #[trigger] method_name(k))) ==> method_result(t)
            == Err::<HttpMethod, HttpRequestValidationErr>(HttpRequestValidationErr::MethodMalformed),
{
    if eq_ignoring_case(t, method_name(m)) {
        assert(same_ignoring_case(t[0], method_name(m)[0]));
        if t.len() >= 2 {
            assert(same_ignoring_case(t[1], method_name(m)[1]));
        }
    }
}

#[derive(Debug, Clone, Copy, PartialEq, Eq, Structural)]
pub enum HttpVersion {
    Http1_1,
    Http2,
}

/// The wire token of a protocol version.
pub open spec fn version_token(v: HttpVersion) -> Seq<char> {
    match v {
        HttpVersion::Http1_1 => seq!['H', 'T', 'T', 'P', '/', '1', '.', '1'],
        HttpVersion::Http2 => seq!['H', 'T', 'T', 'P', '/', '2'],
    }
}

/// The version a token names, ignoring ASCII case.
pub open spec fn version_of(t: Seq<char>) -> Option<HttpVersion> {
    if eq_ignoring_case(t, version_token(HttpVersion::Http1_1)) {
        Some(HttpVersion::Http1_1)
    } else if eq_ignoring_case(t, version_token(HttpVersion::Http2)) {
        Some(HttpVersion::Http2)
    } else {
        None
    }
}

pub open spec fn version_result(t: Seq<char>) -> Result<HttpVersion, HttpRequestValidationErr> {
    match version_of(t) {
        Some(v) => Ok(v),
        None => Err(HttpRequestValidationErr::HttpVersionMalformed),
    }
}

impl HttpVersion {
    pub fn as_str(&self) -> (r: &'static str)
        ensures
            r@ == version_token(*self),
    {
        match self {
            HttpVersion::Http1_1 => {
                proof {
                    reveal_strlit("HTTP/1.1");
                }
                "HTTP/1.1"
            },
            HttpVersion::Http2 => {
                proof {
                    reveal_strlit("HTTP/2");
                }
                "HTTP/2"
            },
        }
    }

    pub fn to_string(&self) -> (r: String)
        ensures
            r@ == version_token(*self),
    {
        let chars = chars_of(self.as_str());
        string_of(&chars)
    }

    /// Decodes a version token, in any letter case.
    pub fn try_from(value: &str) -> (r: Result<HttpVersion, HttpRequestValidationErr>)
        ensures
            r == version_result(value@),
    {
        let chars = chars_of(value);
        HttpVersion::from_chars(&chars)
    }

    pub fn from_chars(t: &Vec<char>) -> (r: Result<HttpVersion, HttpRequestValidationErr>)
        ensures
            r == version_result(t@),
    {
        if eq_ignore_case(t, &vec!['H', 'T', 'T', 'P', '/', '1', '.', '1']) {
            Ok(HttpVersion::Http1_1)
        } else if eq_ignore_case(t, &vec!['H', 'T', 'T', 'P', '/', '2']) {
            Ok(HttpVersion::Http2)
        } else {
            Err(HttpRequestValidationErr::HttpVersionMalformed)
        }
    }
}

} // verus!
