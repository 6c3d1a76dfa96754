//! Reading the host name a connection was opened for.

use vstd::prelude::*;

use crate::text::text_view;

verus! {

/// Reads host names out of TCP payloads. The capture layer asks only for outbound
/// packets that carry a payload, and passes the host name on; the payload itself
/// goes no further.
pub trait DomainParser {
    /// The host name in a payload, if one can be read.
    fn parse_domain(&self, tcp_payload: &[u8]) -> Option<String>;
}

/// Whether a parser may answer a payload with this.
pub open spec fn reads<P: DomainParser>(parser: P, bytes: &[u8], read: Option<String>) -> bool {
    call_ensures(P::parse_domain, (&parser, bytes), read)
}

/// Whether a parser may read this host name out of a payload.
pub open spec fn may_read<P: DomainParser>(
    parser: P,
    payload: Seq<u8>,
    domain: Option<Seq<char>>,
) -> bool {
    exists|bytes: &[u8], read: Option<String>|
        {
            &&& #[trigger] reads(parser, bytes, read)
            &&& bytes@ == payload
            &&& text_view(read) == domain
        }
}

} // verus!
