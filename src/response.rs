//! The reply written back on a connection: a status line, and a length field
//! and the body when there is a body.
use vstd::prelude::*;
use crate::method::{version_token, HttpRequestValidationErr, HttpVersion};
use crate::path::opt_view;
use crate::request::HttpRequest;
use crate::text::{chars_of, string_of};

verus! {

pub open spec fn digit_char(d: nat) -> char {
    ((d + 48) as u32) as char
}

/// `n` in decimal, without leading zeros.
pub open spec fn decimal_text(n: nat) -> Seq<char>
    decreases n,
{
    if n < 10 {
        seq![digit_char(n)]
    } else {
        decimal_text(n / 10).push(digit_char(n % 10))
    }
}

/// How many bytes UTF-8 takes for one character.
pub open spec fn char_utf8_len(c: char) -> nat {
    let u = c as u32;
    if u < 0x80 {
        1
    } else if u < 0x800 {
        2
    } else if u < 0x10000 {
        3
    } else {
        4
    }
}

/// How many bytes UTF-8 takes for a text.
pub open spec fn utf8_len(s: Seq<char>) -> nat
    decreases s.len(),
{
    if s.len() == 0 {
        0
    } else {
        utf8_len(s.drop_last()) + char_utf8_len(s.last())
    }
}

pub open spec fn crlf() -> Seq<char> {
    seq!['\r', '\n']
}

/// The reply's text: `HTTP/1.1 <status> <text>`, then, with a body, its
/// length in bytes as a `Content-Length` field and the body after a blank
/// line; without one, only the blank line.
pub open spec fn response_text(status: nat, text: Seq<char>, body: Option<Seq<char>>) -> Seq<char> {
    let head = version_token(HttpVersion::Http1_1) + seq![' '] + decimal_text(status) + seq![' ']
        + text + crlf();
    match body {
        None => head + crlf(),
        Some(b) => head + "Content-Length: "@ + decimal_text(utf8_len(b)) + crlf() + crlf() + b,
    }
}

fn push_decimal(out: &mut Vec<char>, n: u128)
    ensures
        final(out)@ == old(out)@ + decimal_text(n as nat),
    decreases n,
{
    if n >= 10 {
        push_decimal(out, n / 10);
    }
    let d = (n % 10) as u8;
    out.push((d + 48) as char);
    proof {
        if n >= 10 {
            assert(decimal_text(n as nat) == decimal_text((n / 10) as nat).push(digit_char((n % 10) as nat)));
        }
    }
    assert(final(out)@ =~= old(out)@ + decimal_text(n as nat));
}

fn push_all(out: &mut Vec<char>, s: &Vec<char>)
    ensures
        final(out)@ == old(out)@ + s@,
{
    let mut i: usize = 0;
    while i < s.len()
        invariant
            0 <= i <= s@.len(),
            out@ == old(out)@ + s@.subrange(0, i as int),
        decreases s@.len() - i,
    {
        out.push(s[i]);
        i = i + 1;
        assert(out@ =~= old(out)@ + s@.subrange(0, i as int));
    }
    assert(s@.subrange(0, s@.len() as int) =~= s@);
}

fn utf8_length(s: &Vec<char>) -> (r: u128)
    ensures
        r == utf8_len(s@),
{
    let len = s.len();
    let mut n: u128 = 0;
    let mut i: usize = 0;
    while i < len
        invariant
            len == s@.len(),
            0 <= i <= s@.len(),
            n == utf8_len(s@.subrange(0, i as int)),
            n <= 4 * i,
        decreases s@.len() - i,
    {
        assert(s@.subrange(0, i + 1).drop_last() =~= s@.subrange(0, i as int));
        let u = s[i] as u32;
        let w: u128 = if u < 0x80 {
            1
        } else if u < 0x800 {
            2
        } else if u < 0x10000 {
            3
        } else {
            4
        };
        n = n + w;
        i = i + 1;
    }
    assert(s@.subrange(0, s@.len() as int) =~= s@);
    n
}

/// Writes a reply with the given status, status text and body.
pub fn prepare_response(status: u32, status_text: &str, body: Option<&str>) -> (r: String)
    ensures
        r@ == response_text(
            status as nat,
            status_text@,
            match body {
                Some(b) => Some(b@),
                None => None,
            },
        ),
{
    let mut out: Vec<char> = chars_of(HttpVersion::Http1_1.as_str());
    out.push(' ');
    push_decimal(&mut out, status as u128);
    out.push(' ');
    push_all(&mut out, &chars_of(status_text));
    out.push('\r');
    out.push('\n');
    let ghost head = out@;
    match body {
        None => {
            out.push('\r');
            out.push('\n');
        },
        Some(b) => {
            let chars = chars_of(b);
            proof {
                reveal_strlit("Content-Length: ");
            }
            push_all(&mut out, &chars_of("Content-Length: "));
            push_decimal(&mut out, utf8_length(&chars));
            out.push('\r');
            out.push('\n');
            out.push('\r');
            out.push('\n');
            push_all(&mut out, &chars);
        },
    }
    let ghost expected = response_text(
        status as nat,
        status_text@,
        match body {
            Some(b) => Some(b@),
            None => None,
        },
    );
    assert(out@ =~= expected);
    string_of(&out)
}

/// The text of the reply to a rejected request.
pub open spec fn rejection_body() -> Seq<char> {
    "I have no idea what you just sent"@
}

/// The reply to a decoding outcome: `200 ok`, echoing the body if there is
/// one, or `400 request_error` with a fixed text that names no reason.
pub fn response_for(request: &Result<HttpRequest, HttpRequestValidationErr>) -> (r: String)
    ensures
        r@ == match request {
            Ok(q) => response_text(200, "ok"@, opt_view(q.body)),
            Err(_) => response_text(400, "request_error"@, Some(rejection_body())),
        },
{
    match request {
        Ok(q) => match &q.body {
            Some(b) => prepare_response(200, "ok", Some(b.as_str())),
            None => prepare_response(200, "ok", None),
        },
        Err(_) => prepare_response(400, "request_error", Some("I have no idea what you just sent")),
    }
}

} // verus!
