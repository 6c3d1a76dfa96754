//! Choosing the reader of a payload by its first byte.
//!
//! A TLS handshake record starts with the byte 0x16. An HTTP request starts with
//! the letters of its method, so the two never meet, and one reader runs per payload.

use vstd::prelude::*;

use crate::domain_parse::{may_read, reads, DomainParser};
use crate::domain_parse_http::{http_domain, HttpDomainParser};
use crate::domain_parse_tls::{tls_domain, TlsDomainParser};
use crate::text::text_view;

verus! {

/// The first byte of a TLS handshake record.
pub const TLS_HANDSHAKE_CONTENT_TYPE: u8 = 0x16;

/// Reads host names out of TLS ClientHello messages and HTTP/1.x requests.
pub struct CompositeDomainParser {
    pub tls: TlsDomainParser,
    pub http: HttpDomainParser,
}

impl Default for CompositeDomainParser {
    fn default() -> (parser: Self)
        ensures
            parser == (CompositeDomainParser {
                tls: TlsDomainParser {  },
                http: HttpDomainParser {  },
            }),
    {
        CompositeDomainParser::new()
    }
}

impl CompositeDomainParser {
    pub fn new() -> (parser: Self)
        ensures
            parser == (CompositeDomainParser {
                tls: TlsDomainParser {  },
                http: HttpDomainParser {  },
            }),
    {
        CompositeDomainParser { tls: TlsDomainParser::new(), http: HttpDomainParser::new() }
    }
}

/// The host name that a payload gives.
pub open spec fn composite_domain(payload: Seq<u8>) -> Option<Seq<char>> {
    if payload.len() == 0 {
        None
    } else if payload[0] == TLS_HANDSHAKE_CONTENT_TYPE {
        tls_domain(payload)
    } else {
        http_domain(payload)
    }
}

impl DomainParser for CompositeDomainParser {
    fn parse_domain(&self, tcp_payload: &[u8]) -> (domain: Option<String>)
        ensures
            text_view(domain) == composite_domain(tcp_payload@),
    {
        if tcp_payload.len() == 0 {
            return None;
        }
        if tcp_payload[0] == TLS_HANDSHAKE_CONTENT_TYPE {
            self.tls.parse_domain(tcp_payload)
        } else {
            self.http.parse_domain(tcp_payload)
        }
    }
}

/// What the composite parser reads out of a payload is what the payload gives.
pub proof fn lemma_composite_reads(
    parser: CompositeDomainParser,
    payload: Seq<u8>,
    domain: Option<Seq<char>>,
)
    requires
        may_read(parser, payload, domain),
    ensures
        domain == composite_domain(payload),
{
    let (bytes, read) = choose|bytes: &[u8], read: Option<String>|
        {
            &&& #[trigger] reads(parser, bytes, read)
            &&& bytes@ == payload
            &&& text_view(read) == domain
        };
    assert(call_ensures(CompositeDomainParser::parse_domain, (&parser, bytes), read));
}

} // verus!
