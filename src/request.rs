//! Decoding a whole request: the request line, the header block and the
//! body, each starting where the one before it ended.
use vstd::prelude::*;
use crate::headers::{add_header, header_field, parse_header_line, HttpHeaders};
use crate::line::{lemma_scan_bounds, lemma_too_long, scan_line, scan_spec, LineScan};
use crate::method::{
    method_of, version_of, ErrorKind, HttpMethod, HttpRequestValidationErr, HttpVersion,
};
use crate::path::{normalize_path, opt_normalize_query, opt_view, raw_path, raw_query, HttpPath};
use crate::text::{chars_of, decode_utf8, split_words, string_of, trim, trim_chars, utf8_text, words};

verus! {

/// Where a decoding stage stands after reading what the buffer holds.
#[derive(Debug)]
pub enum Step<T> {
    /// The stage needs bytes that have not come yet.
    NeedMore,
    /// The stage failed; decoding ends here.
    Failed(HttpRequestValidationErr),
    /// The stage read a value, and the next stage starts at this offset.
    Parsed(T, usize),
}

/// What a request line's words hold: method, raw resource and version, or
/// the first thing that is wrong with them. Words after the version make the
/// version part malformed.
pub open spec fn headline_of(w: Seq<Seq<char>>) -> Result<
    (HttpMethod, Seq<char>, HttpVersion),
    ErrorKind,
> {
    if w.len() == 0 {
        Err(ErrorKind::MethodMissing)
    } else if method_of(w[0]) is None {
        Err(ErrorKind::MethodMalformed)
    } else if w.len() < 2 {
        Err(ErrorKind::ResourceMissing)
    } else if w.len() < 3 {
        Err(ErrorKind::HttpVersionMissing)
    } else if version_of(w[2]) is None || w.len() > 3 {
        Err(ErrorKind::HttpVersionMalformed)
    } else {
        Ok((method_of(w[0])->0, w[1], version_of(w[2])->0))
    }
}

/// The request line stage over the bytes received so far: `None` while more
/// bytes are needed, else what the line holds and where the headers start.
pub open spec fn headline_stage(buf: Seq<u8>, max: int, eof: bool) -> Option<
    Result<((HttpMethod, Seq<char>, HttpVersion), int), ErrorKind>,
> {
    match scan_spec(buf, 0, max, eof) {
        LineScan::NeedMore => None,
        LineScan::TooLong => Some(Err(ErrorKind::LineTooLong)),
        LineScan::NoData => Some(Err(ErrorKind::Headline)),
        LineScan::Line { end, next } => match utf8_text(buf.subrange(0, end as int)) {
            None => Some(Err(ErrorKind::Headline)),
            Some(t) => match headline_of(words(t)) {
                Err(k) => Some(Err(k)),
                Ok(h) => Some(Ok((h, next as int))),
            },
        },
    }
}

#[derive(Debug)]
pub struct HttpMethodSection {
    pub method: HttpMethod,
    pub resource: String,
    pub version: HttpVersion,
}

impl HttpMethodSection {
    /// Reads the text of a request line: method, resource and version,
    /// parted by white space.
    pub fn from_line(line: &Vec<char>) -> (r: Result<HttpMethodSection, HttpRequestValidationErr>)
        ensures
            match headline_of(words(line@)) {
                Err(k) => r matches Err(e) && e.kind() == k,
                Ok(h) => r matches Ok(s) && s.method == h.0 && s.resource@ == h.1 && s.version
                    == h.2,
            },
    {
        let w = split_words(line);
        if w.len() == 0 {
            return Err(HttpRequestValidationErr::MethodMissing);
        }
        assert(w@[0]@ =~= w.deep_view()[0]);
        let method = match HttpMethod::from_chars(&w[0]) {
            Ok(m) => m,
            Err(e) => {
                return Err(e);
            },
        };
        if w.len() < 2 {
            return Err(HttpRequestValidationErr::ResourceMissing);
        }
        if w.len() < 3 {
            return Err(HttpRequestValidationErr::HttpVersionMissing);
        }
        assert(w@[1]@ =~= w.deep_view()[1]);
        assert(w@[2]@ =~= w.deep_view()[2]);
        let version = match HttpVersion::from_chars(&w[2]) {
            Ok(v) => v,
            Err(e) => {
                return Err(e);
            },
        };
        if w.len() > 3 {
            return Err(HttpRequestValidationErr::HttpVersionMalformed);
        }
        let resource = string_of(&w[1]);
        Ok(HttpMethodSection { method, resource, version })
    }

    /// Reads the request line at the start of `buf`, of at most `max` bytes.
    pub fn parse_lines(buf: &[u8], max: usize, eof: bool) -> (r: Step<HttpMethodSection>)
        ensures
            match headline_stage(buf@, max as int, eof) {
                None => r is NeedMore,
                Some(Err(k)) => r matches Step::Failed(e) && e.kind() == k,
                Some(Ok((h, next))) => r matches Step::Parsed(s, n) && s.method == h.0
                    && s.resource@ == h.1 && s.version == h.2 && n == next,
            },
            r matches Step::Parsed(_, n) ==> n <= buf@.len(),
    {
        match scan_line(buf, 0, max, eof) {
            LineScan::NeedMore => Step::NeedMore,
            LineScan::TooLong => Step::Failed(HttpRequestValidationErr::LineTooLong),
            LineScan::NoData => Step::Failed(
                HttpRequestValidationErr::Headline("no bytes read in the request line".to_owned()),
            ),
            LineScan::Line { end, next } => {
                match decode_utf8(&buf[0..end]) {
                    None => Step::Failed(
                        HttpRequestValidationErr::Headline(
                            "request line is not valid UTF-8".to_owned(),
                        ),
                    ),
                    Some(text) => {
                        let chars = chars_of(text);
                        match HttpMethodSection::from_line(&chars) {
                            Ok(section) => Step::Parsed(section, next),
                            Err(e) => Step::Failed(e),
                        }
                    },
                }
            },
        }
    }
}

/// The header block from `pos` over the bytes received so far, `m` holding
/// the fields read before: `None` while more bytes are needed, else the fields
/// and where the body starts. A blank line or the end of the stream closes the
/// block. (The bounds tested first hold of every line `scan_spec` gives.)
pub open spec fn headers_from(
    buf: Seq<u8>,
    pos: int,
    max: int,
    eof: bool,
    m: Map<Seq<char>, Seq<Seq<char>>>,
) -> Option<Result<(Map<Seq<char>, Seq<Seq<char>>>, int), ErrorKind>>
    decreases buf.len() - pos,
{
    if pos < 0 || pos > buf.len() {
        None
    } else {
        match scan_spec(buf, pos, max, eof) {
            LineScan::NeedMore => None,
            LineScan::TooLong => Some(Err(ErrorKind::LineTooLong)),
            LineScan::NoData => Some(Ok((m, pos))),
            LineScan::Line { end, next } => if next <= pos || next > buf.len() || end < pos || end > buf.len() {
                None
            } else {
                match utf8_text(buf.subrange(pos, end as int)) {
                    None => Some(Err(ErrorKind::HeadersMalformed)),
                    Some(t) => if trim(t).len() == 0 {
                        Some(Ok((m, next as int)))
                    } else {
                        match header_field(t) {
                            None => Some(Err(ErrorKind::HeadersMalformed)),
                            Some(f) => headers_from(buf, next as int, max, eof, add_header(m, f.0, f.1)),
                        }
                    },
                }
            },
        }
    }
}

impl HttpHeaders {
    /// Reads the header block that starts at `start`, each line of at most
    /// `max` bytes.
    pub fn parse_lines(buf: &[u8], start: usize, max: usize, eof: bool) -> (r: Step<HttpHeaders>)
        requires
            start <= buf@.len(),
        ensures
            match headers_from(buf@, start as int, max as int, eof, Map::empty()) {
                None => r is NeedMore,
                Some(Err(k)) => r matches Step::Failed(e) && e.kind() == k,
                Some(Ok((m, next))) => r matches Step::Parsed(h, n) && h.wf() && h@ == m && n == next,
            },
            r matches Step::Parsed(_, n) ==> n <= buf@.len(),
    {
        let mut headers = HttpHeaders::new();
        let mut pos: usize = start;
        loop
            invariant
                pos <= buf@.len(),
                headers.wf(),
                headers_from(buf@, start as int, max as int, eof, Map::empty()) == headers_from(
                    buf@,
                    pos as int,
                    max as int,
                    eof,
                    headers@,
                ),
            decreases buf@.len() - pos,
        {
            match scan_line(buf, pos, max, eof) {
                LineScan::NeedMore => {
                    return Step::NeedMore;
                },
                LineScan::TooLong => {
                    return Step::Failed(HttpRequestValidationErr::LineTooLong);
                },
                LineScan::NoData => {
                    return Step::Parsed(headers, pos);
                },
                LineScan::Line { end, next } => {
                    match decode_utf8(&buf[pos..end]) {
                        None => {
                            return Step::Failed(HttpRequestValidationErr::HeadersMalformed);
                        },
                        Some(text) => {
                            let chars = chars_of(text);
                            let t = trim_chars(&chars);
                            if t.len() == 0 {
                                return Step::Parsed(headers, next);
                            }
                            match parse_header_line(&chars) {
                                Err(e) => {
                                    return Step::Failed(e);
                                },
                                Ok((k, v)) => {
                                    headers.add(k, v);
                                    pos = next;
                                },
                            }
                        },
                    }
                },
            }
        }
    }
}

pub open spec fn is_digit(c: char) -> bool {
    '0' <= c && c <= '9'
}

/// The number that a string of decimal digits writes.
pub open spec fn digits_value(s: Seq<char>) -> nat
    decreases s.len(),
{
    if s.len() == 0 {
        0
    } else {
        digits_value(s.drop_last()) * 10 + ((s.last() as u32) - 48) as nat
    }
}

/// The text after a leading `+`, if there is one.
pub open spec fn unsigned_part(s: Seq<char>) -> Seq<char> {
    if s.len() > 0 && s[0] == '+' {
        s.drop_first()
    } else {
        s
    }
}

pub open spec fn all_digits(d: Seq<char>) -> bool {
    forall|i: int| 0 <= i < d.len() ==> is_digit(#[trigger] d[i])
}

/// A length written in decimal, with an optional leading `+`, that fits in a
/// `usize`; `None` for any other text.
pub open spec fn decimal_value(s: Seq<char>) -> Option<nat> {
    let d = unsigned_part(s);
    if d.len() > 0 && all_digits(d) && digits_value(d) <= usize::MAX {
        Some(digits_value(d))
    } else {
        None
    }
}

proof fn lemma_digits_grow(s: Seq<char>, j: int)
    requires
        0 <= j <= s.len(),
        forall|i: int| 0 <= i < s.len() ==> is_digit(#[trigger] s[i]),
    ensures
        digits_value(s.subrange(0, j)) <= digits_value(s),
    decreases s.len() - j,
{
    if j < s.len() {
        lemma_digits_grow(s, j + 1);
        assert(s.subrange(0, j + 1).drop_last() =~= s.subrange(0, j));
        assert(is_digit(s[j]));
    } else {
        assert(s.subrange(0, j) =~= s);
    }
}

/// Reads a length written in decimal, as `decimal_value` states it.
pub fn parse_decimal(s: &Vec<char>) -> (r: Option<usize>)
    ensures
        match decimal_value(s@) {
            Some(v) => r == Some(v as usize),
            None => r is None,
        },
{
    let start: usize = if s.len() > 0 && s[0] == '+' {
        1
    } else {
        0
    };
    let ghost d = unsigned_part(s@);
    assert(d =~= s@.subrange(start as int, s@.len() as int));
    if start == s.len() {
        return None;
    }
    let mut acc: usize = 0;
    let mut i: usize = start;
    assert(d.subrange(0, 0) =~= Seq::<char>::empty());
    while i < s.len()
        invariant
            start <= i <= s@.len(),
            d == s@.subrange(start as int, s@.len() as int),
            d == unsigned_part(s@),
            forall|j: int| 0 <= j < i - start ==> is_digit(#[trigger] d[j]),
            acc == digits_value(d.subrange(0, i - start)),
        decreases s@.len() - i,
    {
        let c = s[i];
        if !('0' <= c && c <= '9') {
            let ghost k: int = i - start;
            assert(d[k] == s@[i as int]);
            assert(!is_digit(d[k]));
            assert(!all_digits(d));
            return None;
        }
        let dig = (c as u32 - 48) as usize;
        assert(d[i - start] == c);
        assert(d.subrange(0, i - start + 1).drop_last() =~= d.subrange(0, i - start));
        if acc > (usize::MAX - dig) / 10 {
            proof {
                assert(forall|j: int| 0 <= j < i + 1 - start ==> is_digit(#[trigger] d[j]));
                assert(digits_value(d.subrange(0, i - start + 1)) > usize::MAX) by (nonlinear_arith)
                    requires
                        acc > (usize::MAX - dig) / 10,
                        digits_value(d.subrange(0, i - start + 1)) == acc * 10 + dig,
                        dig <= 9,
                ;
                if all_digits(d) {
                    lemma_digits_grow(d, i - start + 1);
                }
            }
            return None;
        }
        acc = acc * 10 + dig;
        i = i + 1;
    }
    assert(d.subrange(0, d.len() as int) =~= d);
    Some(acc)
}

/// The header name that gives the body's length.
pub open spec fn content_length_key() -> Seq<char> {
    seq!['c', 'o', 'n', 't', 'e', 'n', 't', '-', 'l', 'e', 'n', 'g', 't', 'h']
}

/// The body stage from `pos`, given the header fields: `None` while more
/// bytes are needed, else the body's text, where an empty body is no body.
pub open spec fn body_stage(
    buf: Seq<u8>,
    pos: int,
    m: Map<Seq<char>, Seq<Seq<char>>>,
    eof: bool,
) -> Option<Result<Option<Seq<char>>, ErrorKind>> {
    if !m.contains_key(content_length_key()) || m[content_length_key()].len() == 0 {
        Some(Ok(None))
    } else {
        match decimal_value(m[content_length_key()][0]) {
            None => Some(Err(ErrorKind::HeadersMalformed)),
            Some(len) => if pos + len <= buf.len() {
                match utf8_text(buf.subrange(pos, pos + len)) {
                    None => Some(Err(ErrorKind::BodyMalformed)),
                    Some(t) => Some(
                        Ok(
                            if t.len() == 0 {
                                None
                            } else {
                                Some(t)
                            },
                        ),
                    ),
                }
            } else if eof {
                Some(Err(ErrorKind::BodyMalformed))
            } else {
                None
            },
        }
    }
}

/// Where the bytes after the body start: `pos` plus the `content-length`
/// field's value, or `pos` itself without a readable one.
pub open spec fn body_end(pos: int, m: Map<Seq<char>, Seq<Seq<char>>>) -> int {
    if !m.contains_key(content_length_key()) || m[content_length_key()].len() == 0 {
        pos
    } else {
        match decimal_value(m[content_length_key()][0]) {
            Some(len) => pos + len,
            None => pos,
        }
    }
}

/// Reads the body that starts at `pos`: exactly as many bytes as the
/// `content-length` field's first value says, or none without that field.
pub fn read_body(buf: &[u8], pos: usize, headers: &HttpHeaders, eof: bool) -> (r: Step<
    Option<String>,
>)
    requires
        pos <= buf@.len(),
        headers.wf(),
    ensures
        match body_stage(buf@, pos as int, headers@, eof) {
            None => r is NeedMore,
            Some(Err(k)) => r matches Step::Failed(e) && e.kind() == k,
            Some(Ok(b)) => r matches Step::Parsed(x, n) && opt_view(x) == b && n == body_end(
                pos as int,
                headers@,
            ),
        },
{
    let key = string_of(
        &vec!['c', 'o', 'n', 't', 'e', 'n', 't', '-', 'l', 'e', 'n', 'g', 't', 'h'],
    );
    match headers.get_lowered(&key) {
        None => Step::Parsed(None, pos),
        Some(vals) => {
            if vals.len() == 0 {
                return Step::Parsed(None, pos);
            }
            assert(vals@[0]@ == vals.deep_view()[0]);
            let first = chars_of(vals[0].as_str());
            match parse_decimal(&first) {
                None => Step::Failed(HttpRequestValidationErr::HeadersMalformed),
                Some(len) => {
                    if len <= buf.len() - pos {
                        match decode_utf8(&buf[pos..pos + len]) {
                            None => Step::Failed(HttpRequestValidationErr::BodyMalformed),
                            Some(t) => {
                                if t.is_empty() {
                                    Step::Parsed(None, pos + len)
                                } else {
                                    Step::Parsed(Some(t.to_owned()), pos + len)
                                }
                            },
                        }
                    } else if eof {
                        Step::Failed(HttpRequestValidationErr::BodyMalformed)
                    } else {
                        Step::NeedMore
                    }
                },
            }
        },
    }
}

/// A decoded request as mathematical values.
pub struct RequestView {
    pub method: HttpMethod,
    pub path: Seq<char>,
    pub query: Option<Seq<char>>,
    pub headers: Map<Seq<char>, Seq<Seq<char>>>,
    pub body: Option<Seq<char>>,
    pub version: HttpVersion,
}

/// Decoding over the bytes a peer has sent so far (`eof`: and no more will
/// come): `None` while more bytes are needed, else the request or the
/// first failure. The stages run in order, each from where the last ended.
pub open spec fn decode_spec(buf: Seq<u8>, max: int, eof: bool) -> Option<Result<RequestView, ErrorKind>> {
    match headline_stage(buf, max, eof) {
        None => None,
        Some(Err(k)) => Some(Err(k)),
        Some(Ok((h, p))) => match headers_from(buf, p, max, eof, Map::empty()) {
            None => None,
            Some(Err(k)) => Some(Err(k)),
            Some(Ok((m, q))) => match body_stage(buf, q, m, eof) {
                None => None,
                Some(Err(k)) => Some(Err(k)),
                Some(Ok(b)) => Some(
                    Ok(
                        RequestView {
                            method: h.0,
                            path: normalize_path(raw_path(h.1)),
                            query: opt_normalize_query(raw_query(h.1)),
                            headers: m,
                            body: b,
                            version: h.2,
                        },
                    ),
                ),
            },
        },
    }
}

#[derive(Debug)]
pub struct HttpRequest {
    pub method: HttpMethod,
    pub resource: HttpPath,
    pub headers: HttpHeaders,
    pub body: Option<String>,
    pub version: HttpVersion,
}

proof fn lemma_headers_complete(
    buf: Seq<u8>,
    pos: int,
    max: int,
    m: Map<Seq<char>, Seq<Seq<char>>>,
)
    requires
        0 <= pos <= buf.len() <= usize::MAX,
        0 <= max,
    ensures
        headers_from(buf, pos, max, true, m) is Some,
    decreases buf.len() - pos,
{
    lemma_scan_bounds(buf, pos, max, true);
    if let LineScan::Line { end, next } = scan_spec(buf, pos, max, true) {
        if let Some(t) = utf8_text(buf.subrange(pos, end as int)) {
            if let Some(f) = header_field(t) {
                lemma_headers_complete(buf, next as int, max, add_header(m, f.0, f.1));
            }
        }
    }
}

/// Once the stream has ended, decoding always reaches an answer: a request or
/// the first failure, never a call for more bytes.
pub proof fn lemma_decode_complete(buf: Seq<u8>, max: int)
    requires
        buf.len() <= usize::MAX,
        0 <= max,
    ensures
        decode_spec(buf, max, true) is Some,
{
    lemma_scan_bounds(buf, 0, max, true);
    if let Some(Ok((h, p))) = headline_stage(buf, max, true) {
        lemma_headers_complete(buf, p, max, Map::empty());
    }
}

/// How decoding the bytes received so far ends.
#[derive(Debug)]
pub enum Decoded {
    /// The request is not complete yet: read more bytes and decode again.
    NeedMore,
    Failed(HttpRequestValidationErr),
    Done(HttpRequest),
}

impl HttpRequest {
    pub open spec fn view(&self) -> RequestView {
        RequestView {
            method: self.method,
            path: self.resource.path@,
            query: opt_view(self.resource.search_params),
            headers: self.headers@,
            body: opt_view(self.body),
            version: self.version,
        }
    }

    /// Decodes the request at the start of `buf`, whose lines hold at most
    /// `max_line` bytes each; `eof` says that the stream has ended.
    pub fn decode(buf: &[u8], max_line: usize, eof: bool) -> (r: Decoded)
        ensures
            match decode_spec(buf@, max_line as int, eof) {
                None => r is NeedMore,
                Some(Err(k)) => r matches Decoded::Failed(e) && e.kind() == k,
                Some(Ok(v)) => r matches Decoded::Done(q) && q@ == v && q.headers.wf(),
            },
    {
        let (section, p) = match HttpMethodSection::parse_lines(buf, max_line, eof) {
            Step::NeedMore => {
                return Decoded::NeedMore;
            },
            Step::Failed(e) => {
                return Decoded::Failed(e);
            },
            Step::Parsed(s, p) => (s, p),
        };
        let (headers, q) = match HttpHeaders::parse_lines(buf, p, max_line, eof) {
            Step::NeedMore => {
                return Decoded::NeedMore;
            },
            Step::Failed(e) => {
                return Decoded::Failed(e);
            },
            Step::Parsed(h, q) => (h, q),
        };
        let body = match read_body(buf, q, &headers, eof) {
            Step::NeedMore => {
                return Decoded::NeedMore;
            },
            Step::Failed(e) => {
                return Decoded::Failed(e);
            },
            Step::Parsed(b, _) => b,
        };
        let resource = HttpPath::from_resource(section.resource.as_str());
        Decoded::Done(
            HttpRequest {
                method: section.method,
                resource,
                headers,
                body,
                version: section.version,
            },
        )
    }
}

impl HttpRequest {
    /// Decodes a request from all the bytes a peer sent, each line of at most
    /// `max_line` bytes.
    pub fn from_bytes(buf: &[u8], max_line: usize) -> (r: Result<HttpRequest, HttpRequestValidationErr>)
        ensures
            match decode_spec(buf@, max_line as int, true) {
                Some(Ok(v)) => r matches Ok(q) && q@ == v && q.headers.wf(),
                Some(Err(k)) => r matches Err(e) && e.kind() == k,
                None => false,
            },
    {
        let _len = buf.len();
        proof {
            lemma_decode_complete(buf@, max_line as int);
        }
        match HttpRequest::decode(buf, max_line, true) {
            Decoded::Done(q) => Ok(q),
            Decoded::Failed(e) => Err(e),
            Decoded::NeedMore => Err(HttpRequestValidationErr::Headline("incomplete request".to_owned())),
        }
    }
}

/// A request line with a known method and a resource but no version fails
/// with `HttpVersionMissing`; one whose third word is no known version fails
/// with `HttpVersionMalformed`.
pub proof fn lemma_version_errors(buf: Seq<u8>, max: int, eof: bool, end: usize, next: usize, t: Seq<char>)
    requires
        scan_spec(buf, 0, max, eof) == (LineScan::Line { end, next }),
        utf8_text(buf.subrange(0, end as int)) == Some(t),
        words(t).len() >= 1,
        method_of(words(t)[0]) is Some,
    ensures
        words(t).len() == 2 ==> decode_spec(buf, max, eof) == Some(
            Err::<RequestView, ErrorKind>(ErrorKind::HttpVersionMissing),
        ),
        words(t).len() == 3 && version_of(words(t)[2]) is None ==> decode_spec(buf, max, eof)
            == Some(Err::<RequestView, ErrorKind>(ErrorKind::HttpVersionMalformed)),
{
}

/// A request line longer than the limit fails with `LineTooLong`, which is
/// not the `Headline` failure of a stream that broke or ended early.
pub proof fn lemma_line_too_long(buf: Seq<u8>, max: int, eof: bool)
    requires
        0 <= max,
        buf.len() > max,
        forall|j: int| 0 <= j < max ==> buf[j] != 10,
    ensures
        decode_spec(buf, max, eof) == Some(Err::<RequestView, ErrorKind>(ErrorKind::LineTooLong)),
        ErrorKind::LineTooLong != ErrorKind::Headline,
{
    lemma_too_long(buf, 0, max, eof);
}

/// Once the stream has ended, a body shorter than its `content-length` fails
/// with `BodyMalformed`.
pub proof fn lemma_short_body(buf: Seq<u8>, pos: int, m: Map<Seq<char>, Seq<Seq<char>>>, len: nat)
    requires
        m.contains_key(content_length_key()),
        m[content_length_key()].len() > 0,
        decimal_value(m[content_length_key()][0]) == Some(len),
        pos + len > buf.len(),
    ensures
        body_stage(buf, pos, m, true) == Some(Err::<Option<Seq<char>>, ErrorKind>(ErrorKind::BodyMalformed)),
{
}

/// The body stage never gives an empty text: no `content-length` field means
/// no body, and a body of no characters is no body either.
pub proof fn lemma_no_empty_body(buf: Seq<u8>, pos: int, m: Map<Seq<char>, Seq<Seq<char>>>, eof: bool)
    ensures
        !(body_stage(buf, pos, m, eof) matches Some(Ok(Some(t))) && t.len() == 0),
        !m.contains_key(content_length_key()) ==> body_stage(buf, pos, m, eof) == Some(
            Ok::<Option<Seq<char>>, ErrorKind>(None),
        ),
{
}

} // verus!
