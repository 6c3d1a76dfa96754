//! The host name in the headers of a plain HTTP/1.x request.
//!
//! Only a complete request counts: one that is cut off, a response, and anything
//! that is not HTTP yield no host name. Header names compare without regard to
//! case, and the first `Host` header decides.

use vstd::prelude::*;

use crate::domain_parse::DomainParser;
use crate::text::{chars_of, text_from_utf8, text_view, utf8_text};

verus! {

/// How many headers a request may have.
pub const MAX_HEADERS: usize = 64;

/// A header of a request.
#[derive(Debug, PartialEq, Eq)]
pub struct HttpHeader {
    pub name: String,
    pub value: Vec<u8>,
}

/// What became of reading a request.
#[derive(Debug, PartialEq, Eq)]
pub enum HttpRequest {
    /// The headers, in order.
    Complete(Vec<HttpHeader>),
    /// The payload ends before the headers do.
    Partial,
    /// The payload is no request, or has too many headers.
    Malformed,
}

/// What became of reading a request, as a mathematical value.
pub ghost enum HttpRequestView {
    Complete(Seq<(Seq<char>, Seq<u8>)>),
    Partial,
    Malformed,
}

impl View for HttpHeader {
    type V = (Seq<char>, Seq<u8>);

    open spec fn view(&self) -> (Seq<char>, Seq<u8>) {
        (self.name@, self.value@)
    }
}

/// Headers as mathematical values.
pub open spec fn header_views(headers: Seq<HttpHeader>) -> Seq<(Seq<char>, Seq<u8>)> {
    headers.map_values(|header: HttpHeader| header@)
}

impl View for HttpRequest {
    type V = HttpRequestView;

    open spec fn view(&self) -> HttpRequestView {
        match *self {
            HttpRequest::Complete(headers) => HttpRequestView::Complete(header_views(headers@)),
            HttpRequest::Partial => HttpRequestView::Partial,
            HttpRequest::Malformed => HttpRequestView::Malformed,
        }
    }
}

/// What `httparse::Request::parse` makes of a payload, with room for `limit` headers.
pub uninterp spec fn http_request(payload: Seq<u8>, limit: nat) -> HttpRequestView;

/// Reads an HTTP/1.x request with `httparse::Request::parse`. What it makes of a
/// payload depends on the payload and on the room for headers alone.
#[verifier::external_body]
fn read_request(payload: &[u8], limit: usize) -> (request: HttpRequest)
    requires
        limit <= MAX_HEADERS,
    ensures
        request@ == http_request(payload@, limit as nat),
{
    let mut headers = vec![httparse::EMPTY_HEADER; limit];
    let mut request = httparse::Request::new(&mut headers);
    match request.parse(payload) {
        Ok(httparse::Status::Complete(_)) => HttpRequest::Complete(
            request.headers.iter().map(
                |header| HttpHeader { name: header.name.to_owned(), value: header.value.to_vec() },
            ).collect(),
        ),
        Ok(httparse::Status::Partial) => HttpRequest::Partial,
        Err(_) => HttpRequest::Malformed,
    }
}

/// A character with the ASCII capitals made small.
pub open spec fn ascii_lower(c: char) -> char {
    if 'A' <= c && c <= 'Z' {
        ((c as u32) + 32) as char
    } else {
        c
    }
}

/// Whether a header name is `host`, without regard to ASCII case.
pub open spec fn is_host_name(name: Seq<char>) -> bool {
    name.map_values(|c: char| ascii_lower(c)) == seq!['h', 'o', 's', 't']
}

/// The host name that headers give: the value of the first `Host` header, if it
/// is valid UTF-8 and not empty.
pub open spec fn host_value(headers: Seq<(Seq<char>, Seq<u8>)>) -> Option<Seq<char>>
    decreases headers.len(),
{
    if headers.len() == 0 {
        None
    } else if is_host_name(headers.first().0) {
        if headers.first().1.len() == 0 {
            None
        } else {
            utf8_text(headers.first().1)
        }
    } else {
        host_value(headers.drop_first())
    }
}

/// The host name that a payload gives.
pub open spec fn http_domain(payload: Seq<u8>) -> Option<Seq<char>> {
    if payload.len() == 0 {
        None
    } else {
        match http_request(payload, MAX_HEADERS as nat) {
            HttpRequestView::Complete(headers) => host_value(headers),
            _ => None,
        }
    }
}

/// Whether a character is one letter, in either case.
fn is_letter(c: char, small: char, capital: char) -> (same: bool)
    requires
        'a' <= small <= 'z',
        capital as u32 + 32 == small as u32,
    ensures
        same == (ascii_lower(c) == small),
{
    c == small || c == capital
}

/// Whether a header name is `host`, without regard to ASCII case.
fn names_host(name: &str) -> (same: bool)
    ensures
        same == is_host_name(name@),
{
    let chars = chars_of(name);
    let ghost lower = name@.map_values(|c: char| ascii_lower(c));
    if chars.len() != 4 {
        assert(lower.len() != 4);
        return false;
    }
    let same = is_letter(chars[0], 'h', 'H') && is_letter(chars[1], 'o', 'O') && is_letter(
        chars[2],
        's',
        'S',
    ) && is_letter(chars[3], 't', 'T');
    proof {
        if same {
            assert(lower =~= seq!['h', 'o', 's', 't']);
        } else {
            assert(lower[0] != 'h' || lower[1] != 'o' || lower[2] != 's' || lower[3] != 't');
        }
    }
    same
}

/// The host name that headers give.
pub fn host_from_headers(headers: &Vec<HttpHeader>) -> (host: Option<String>)
    ensures
        text_view(host) == host_value(header_views(headers@)),
{
    let ghost views = header_views(headers@);
    let mut i: usize = 0;
    assert(views.skip(0) =~= views);
    while i < headers.len()
        invariant
            i <= headers@.len(),
            views == header_views(headers@),
            host_value(views) == host_value(views.skip(i as int)),
        decreases headers@.len() - i,
    {
        assert(views.skip(i as int).drop_first() =~= views.skip(i + 1));
        assert(views.skip(i as int).first() == headers@[i as int]@);
        if names_host(headers[i].name.as_str()) {
            if headers[i].value.len() == 0 {
                return None;
            }
            return text_from_utf8(headers[i].value.as_slice());
        }
        i += 1;
    }
    None
}

/// The host name that a request gives, once it has been read.
pub fn host_from_request(request: &HttpRequest) -> (host: Option<String>)
    ensures
        text_view(host) == match request@ {
            HttpRequestView::Complete(headers) => host_value(headers),
            _ => None,
        },
{
    match request {
        HttpRequest::Complete(headers) => host_from_headers(headers),
        HttpRequest::Partial => None,
        HttpRequest::Malformed => None,
    }
}

/// Reads host names out of HTTP/1.x requests.
pub struct HttpDomainParser {}

impl Default for HttpDomainParser {
    fn default() -> (parser: Self)
        ensures
            parser == (HttpDomainParser {  }),
    {
        HttpDomainParser::new()
    }
}

impl HttpDomainParser {
    pub fn new() -> (parser: Self)
        ensures
            parser == (HttpDomainParser {  }),
    {
        HttpDomainParser {  }
    }
}

impl DomainParser for HttpDomainParser {
    fn parse_domain(&self, tcp_payload: &[u8]) -> (domain: Option<String>)
        ensures
            text_view(domain) == http_domain(tcp_payload@),
    {
        if tcp_payload.len() == 0 {
            return None;
        }
        let request = read_request(tcp_payload, MAX_HEADERS);
        host_from_request(&request)
    }
}

} // verus!
