//! Which host name a payload gives, and what a flow takes from it.

use vstd::prelude::*;

use crate::capture::parser::{domain_given, key_of};
use crate::capture::Flow;
use crate::domain_parse::{may_read, DomainParser};
use crate::domain_parse_composite::composite_domain;
use crate::domain_parse_http::{host_value, http_domain, http_request, is_host_name, HttpRequestView};
use crate::domain_parse_tls::{
    extensions_domain, first_hello, first_host, first_sni, hello_extensions, record_messages,
    tls_domain, ExtensionView, MessageView,
};
use crate::flow_table::{FlowKey, FlowKnowledge};
use crate::net::{Direction, LocalSocket, TransportProtocol};
use crate::text::utf8_text;

verus! {

/// Whether an extension says that the real host name is encrypted: by its name, or by the
/// number of the current or of the earlier such extension.
pub open spec fn encrypts_name(extension: ExtensionView) -> bool {
    ||| extension == ExtensionView::EncryptedServerName
    ||| extension == ExtensionView::Unknown(0xFE0D)
    ||| extension == ExtensionView::Unknown(0xFFCE)
}

/// Whether an extension lists a host name in valid UTF-8, which has the type zero.
pub open spec fn lists_host(extension: ExtensionView) -> bool {
    extension matches ExtensionView::ServerNames(names) && exists|k: int|
        0 <= k < names.len() && (#[trigger] names[k]).0 == 0 && utf8_text(names[k].1) is Some
}

proof fn lemma_first_host(names: Seq<(u8, Seq<u8>)>, k: int)
    requires
        0 <= k < names.len(),
        names[k].0 == 0,
        utf8_text(names[k].1) is Some,
        forall|earlier: int|
            0 <= earlier < k ==> (#[trigger] names[earlier]).0 != 0 || utf8_text(
                names[earlier].1,
            ) is None,
    ensures
        first_host(names) == utf8_text(names[k].1),
    decreases k,
{
    if k > 0 {
        let rest = names.drop_first();
        assert(names[0].0 != 0 || utf8_text(names[0].1) is None);
        assert(rest[k - 1] == names[k]);
        assert forall|earlier: int| 0 <= earlier < k - 1 implies (#[trigger] rest[earlier]).0 != 0
            || utf8_text(rest[earlier].1) is None by {
            assert(rest[earlier] == names[earlier + 1]);
        }
        lemma_first_host(rest, k - 1);
    }
}

proof fn lemma_no_host(names: Seq<(u8, Seq<u8>)>)
    requires
        forall|k: int|
            0 <= k < names.len() ==> (#[trigger] names[k]).0 != 0 || utf8_text(names[k].1) is None,
    ensures
        first_host(names) is None,
    decreases names.len(),
{
    if names.len() > 0 {
        let rest = names.drop_first();
        assert(names[0].0 != 0 || utf8_text(names[0].1) is None);
        assert forall|k: int| 0 <= k < rest.len() implies (#[trigger] rest[k]).0 != 0 || utf8_text(
            rest[k].1,
        ) is None by {
            assert(rest[k] == names[k + 1]);
        }
        lemma_no_host(rest);
    }
}

proof fn lemma_first_sni(
    extensions: Seq<ExtensionView>,
    i: int,
    names: Seq<(u8, Seq<u8>)>,
    k: int,
)
    requires
        0 <= i < extensions.len(),
        extensions[i] == ExtensionView::ServerNames(names),
        0 <= k < names.len(),
        names[k].0 == 0,
        utf8_text(names[k].1) is Some,
        forall|earlier: int|
            0 <= earlier < k ==> (#[trigger] names[earlier]).0 != 0 || utf8_text(
                names[earlier].1,
            ) is None,
        forall|earlier: int| 0 <= earlier < i ==> !lists_host(#[trigger] extensions[earlier]),
    ensures
        first_sni(extensions) == utf8_text(names[k].1),
    decreases i,
{
    if i == 0 {
        lemma_first_host(names, k);
    } else {
        let rest = extensions.drop_first();
        assert(!lists_host(extensions[0]));
        if let ExtensionView::ServerNames(listed) = extensions[0] {
            lemma_no_host(listed);
        }
        assert(rest[i - 1] == extensions[i]);
        assert forall|earlier: int| 0 <= earlier < i - 1 implies !lists_host(
            #[trigger] rest[earlier],
        ) by {
            assert(rest[earlier] == extensions[earlier + 1]);
        }
        lemma_first_sni(rest, i - 1, names, k);
    }
}

proof fn lemma_no_sni(extensions: Seq<ExtensionView>)
    requires
        forall|i: int| 0 <= i < extensions.len() ==> !lists_host(#[trigger] extensions[i]),
    ensures
        first_sni(extensions) is None,
    decreases extensions.len(),
{
    if extensions.len() > 0 {
        let rest = extensions.drop_first();
        assert(!lists_host(extensions[0]));
        if let ExtensionView::ServerNames(listed) = extensions[0] {
            lemma_no_host(listed);
        }
        assert forall|i: int| 0 <= i < rest.len() implies !lists_host(#[trigger] rest[i]) by {
            assert(rest[i] == extensions[i + 1]);
        }
        lemma_no_sni(rest);
    }
}

/// If no extension encrypts the host name, the one that is found is the first host name in
/// valid UTF-8 of the first extension that lists any, at whatever place that extension stands
/// and whatever other extensions are around it.
pub proof fn lemma_first_host_name_is_found(
    extensions: Seq<ExtensionView>,
    i: int,
    names: Seq<(u8, Seq<u8>)>,
    k: int,
)
    requires
        forall|j: int| 0 <= j < extensions.len() ==> !encrypts_name(#[trigger] extensions[j]),
        0 <= i < extensions.len(),
        extensions[i] == ExtensionView::ServerNames(names),
        0 <= k < names.len(),
        names[k].0 == 0,
        utf8_text(names[k].1) is Some,
        forall|earlier: int|
            0 <= earlier < k ==> (#[trigger] names[earlier]).0 != 0 || utf8_text(
                names[earlier].1,
            ) is None,
        forall|earlier: int| 0 <= earlier < i ==> !lists_host(#[trigger] extensions[earlier]),
    ensures
        extensions_domain(extensions) == utf8_text(names[k].1),
        first_sni(extensions) == utf8_text(names[k].1),
{
    lemma_first_sni(extensions, i, names, k);
}

/// If no extension encrypts the host name and exactly one lists server names, of which the
/// first has the type zero and is UTF-8, the host name that is found is that one, at whatever
/// place the extension stands and whatever other extensions are around it.
pub proof fn lemma_only_list_of_names_is_found(
    extensions: Seq<ExtensionView>,
    i: int,
    names: Seq<(u8, Seq<u8>)>,
)
    requires
        forall|j: int| 0 <= j < extensions.len() ==> !encrypts_name(#[trigger] extensions[j]),
        0 <= i < extensions.len(),
        extensions[i] == ExtensionView::ServerNames(names),
        forall|j: int|
            0 <= j < extensions.len() && j != i ==> !((#[trigger] extensions[j]) is ServerNames),
        names.len() > 0,
        names[0].0 == 0,
        utf8_text(names[0].1) is Some,
    ensures
        extensions_domain(extensions) == utf8_text(names[0].1),
        first_sni(extensions) == utf8_text(names[0].1),
{
    lemma_first_sni(extensions, i, names, 0);
}

/// A ClientHello without a host name in valid UTF-8, or with an extension that encrypts it,
/// gives none.
pub proof fn lemma_no_name_to_find(extensions: Seq<ExtensionView>)
    requires
        (forall|i: int| 0 <= i < extensions.len() ==> !lists_host(#[trigger] extensions[i])) || (
        exists|i: int| 0 <= i < extensions.len() && encrypts_name(#[trigger] extensions[i])),
    ensures
        extensions_domain(extensions) is None,
{
    if forall|i: int| 0 <= i < extensions.len() ==> !lists_host(#[trigger] extensions[i]) {
        lemma_no_sni(extensions);
    } else {
        let i = choose|i: int| 0 <= i < extensions.len() && encrypts_name(#[trigger] extensions[i]);
        assert(crate::domain_parse_tls::hides_name(extensions[i]));
    }
}

proof fn lemma_first_hello(messages: Seq<MessageView>, i: int, extensions: Option<Seq<u8>>)
    requires
        0 <= i < messages.len(),
        messages[i] == (MessageView::ClientHello { extensions }),
        forall|earlier: int| 0 <= earlier < i ==> (#[trigger] messages[earlier]) is Other,
    ensures
        first_hello(messages) == Some(extensions),
    decreases i,
{
    if i > 0 {
        let rest = messages.drop_first();
        assert(messages[0] is Other);
        assert(rest[i - 1] == messages[i]);
        assert forall|earlier: int| 0 <= earlier < i - 1 implies (
        #[trigger] rest[earlier]) is Other by {
            assert(rest[earlier] == messages[earlier + 1]);
        }
        lemma_first_hello(rest, i - 1, extensions);
    }
}

/// The host name that a TLS payload gives is the one in the extensions of its first
/// ClientHello, whatever messages stand before it.
pub proof fn lemma_first_client_hello_counts(
    payload: Seq<u8>,
    messages: Seq<MessageView>,
    i: int,
    extensions: Option<Seq<u8>>,
)
    requires
        record_messages(payload) == Some(messages),
        0 <= i < messages.len(),
        messages[i] == (MessageView::ClientHello { extensions }),
        forall|earlier: int| 0 <= earlier < i ==> (#[trigger] messages[earlier]) is Other,
    ensures
        extensions is None ==> tls_domain(payload) is None,
        extensions matches Some(bytes) && hello_extensions(bytes) is None ==> tls_domain(
            payload,
        ) is None,
        extensions matches Some(bytes) && hello_extensions(bytes) is Some ==> tls_domain(payload)
            == extensions_domain(hello_extensions(extensions->0)->0),
{
    lemma_first_hello(messages, i, extensions);
}

/// Whether a header is called `Host`, in any mix of small and capital letters.
pub open spec fn called_host(name: Seq<char>) -> bool {
    &&& name.len() == 4
    &&& name[0] == 'h' || name[0] == 'H'
    &&& name[1] == 'o' || name[1] == 'O'
    &&& name[2] == 's' || name[2] == 'S'
    &&& name[3] == 't' || name[3] == 'T'
}

proof fn lemma_called_host(name: Seq<char>)
    ensures
        is_host_name(name) <==> called_host(name),
{
    let small = name.map_values(|c: char| crate::domain_parse_http::ascii_lower(c));
    if called_host(name) {
        assert(small =~= seq!['h', 'o', 's', 't']);
    }
    if is_host_name(name) {
        assert(small.len() == 4);
        assert(small[0] == 'h' && small[1] == 'o' && small[2] == 's' && small[3] == 't');
    }
}

proof fn lemma_host_value(headers: Seq<(Seq<char>, Seq<u8>)>, i: int)
    requires
        0 <= i < headers.len(),
        called_host(headers[i].0),
        forall|earlier: int| 0 <= earlier < i ==> !called_host((#[trigger] headers[earlier]).0),
    ensures
        host_value(headers) == if headers[i].1.len() == 0 {
            None
        } else {
            utf8_text(headers[i].1)
        },
    decreases i,
{
    lemma_called_host(headers[0].0);
    if i > 0 {
        let rest = headers.drop_first();
        assert(!called_host(headers[0].0));
        assert(rest[i - 1] == headers[i]);
        assert forall|earlier: int| 0 <= earlier < i - 1 implies !called_host(
            (#[trigger] rest[earlier]).0,
        ) by {
            assert(rest[earlier] == headers[earlier + 1]);
        }
        lemma_host_value(rest, i - 1);
    }
}

proof fn lemma_no_host_value(headers: Seq<(Seq<char>, Seq<u8>)>)
    requires
        forall|i: int| 0 <= i < headers.len() ==> !called_host((#[trigger] headers[i]).0),
    ensures
        host_value(headers) is None,
    decreases headers.len(),
{
    if headers.len() > 0 {
        let rest = headers.drop_first();
        lemma_called_host(headers[0].0);
        assert(!called_host(headers[0].0));
        assert forall|i: int| 0 <= i < rest.len() implies !called_host((#[trigger] rest[i]).0) by {
            assert(rest[i] == headers[i + 1]);
        }
        lemma_no_host_value(rest);
    }
}

/// The host name that a complete HTTP request gives is the value of its first header that is
/// called `Host` in any case of letters, whatever headers stand around it, if that value is
/// valid UTF-8 and not empty. A request without such a header gives none.
pub proof fn lemma_first_host_header_counts(
    payload: Seq<u8>,
    headers: Seq<(Seq<char>, Seq<u8>)>,
    i: int,
)
    requires
        payload.len() > 0,
        http_request(payload, 64) == HttpRequestView::Complete(headers),
        0 <= i <= headers.len(),
        forall|earlier: int| 0 <= earlier < i ==> !called_host((#[trigger] headers[earlier]).0),
        i < headers.len() ==> called_host(headers[i].0),
    ensures
        i == headers.len() || headers[i].1.len() == 0 ==> http_domain(payload) is None,
        i < headers.len() && headers[i].1.len() > 0 ==> http_domain(payload) == utf8_text(
            headers[i].1,
        ),
{
    if i < headers.len() {
        lemma_host_value(headers, i);
    } else {
        lemma_no_host_value(headers);
    }
}

/// A payload that starts with the number of a TLS handshake is read as TLS, any other as HTTP,
/// and an empty one not at all. A request that is not complete gives no host name.
pub proof fn lemma_payloads_are_told_apart(payload: Seq<u8>)
    ensures
        payload.len() == 0 ==> composite_domain(payload) is None && http_domain(payload) is None,
        payload.len() > 0 && payload[0] == 0x16 ==> composite_domain(payload) == tls_domain(payload),
        payload.len() > 0 && payload[0] != 0x16 ==> composite_domain(payload) == http_domain(
            payload,
        ),
        !(http_request(payload, 64) is Complete) ==> http_domain(payload) is None,
{
}

/// Only flows of TCP have a connection to remember: that between their own socket and their
/// peer.
pub proof fn lemma_connections_are_of_tcp(flow: Flow, socket: LocalSocket, peer_port: u16)
    ensures
        flow.local_socket is None || flow.peer_port is None ==> key_of(flow) is None,
        flow.local_socket == Some(socket) && flow.peer_port == Some(peer_port) ==> {
            &&& socket.protocol == TransportProtocol::Udp ==> key_of(flow) is None
            &&& socket.protocol == TransportProtocol::Tcp ==> key_of(flow) == Some(
                FlowKey {
                    local_ip: socket.ip,
                    local_port: socket.port,
                    peer_ip: flow.peer,
                    peer_port,
                },
            )
        },
{
}

/// An inbound packet takes the host name that was learned of its connection, and teaches
/// nothing.
pub proof fn lemma_inbound_packets_take_the_name<P: DomainParser>(
    parser: P,
    before: Map<FlowKey, FlowKnowledge>,
    said: Option<FlowKnowledge>,
    flow: Flow,
    payload: Option<Seq<u8>>,
    domain: Option<Seq<char>>,
    after: Map<FlowKey, FlowKnowledge>,
)
    requires
        domain_given(parser, before, said, flow, payload, domain, after),
        flow.direction == Direction::Inbound,
    ensures
        after == before,
        key_of(flow) is None ==> domain is None,
        key_of(flow) is Some ==> {
            &&& said is None ==> domain is None
            &&& said matches Some(FlowKnowledge::Resolved(name)) ==> domain == Some(name)
            &&& said matches Some(FlowKnowledge::NoDomain { .. }) ==> domain is None
        },
{
}

/// An outbound packet without a payload has no host name and teaches nothing. One with a
/// payload takes the name that was learned of its connection; else it is read, unless three
/// readings have failed, and what was read is what is then known of its connection: the name,
/// or one failure more. Of no other connection anything is learned.
pub proof fn lemma_outbound_packets_teach_the_name<P: DomainParser>(
    parser: P,
    before: Map<FlowKey, FlowKnowledge>,
    said: Option<FlowKnowledge>,
    flow: Flow,
    payload: Option<Seq<u8>>,
    domain: Option<Seq<char>>,
    after: Map<FlowKey, FlowKnowledge>,
    key: FlowKey,
)
    requires
        domain_given(parser, before, said, flow, payload, domain, after),
        flow.direction == Direction::Outbound,
        key_of(flow) == Some(key),
    ensures
        payload is None ==> domain is None && after == before,
        payload matches Some(bytes) ==> {
            let failures = match said {
                Some(FlowKnowledge::NoDomain { attempts }) => attempts as int,
                _ => 0,
            };
            &&& said matches Some(FlowKnowledge::Resolved(name)) ==> domain == Some(name) && after
                == before
            &&& !(said matches Some(FlowKnowledge::Resolved(_))) && failures >= 3 ==> domain is None
                && after == before
            &&& !(said matches Some(FlowKnowledge::Resolved(_))) && failures < 3 ==> {
                &&& may_read(parser, bytes, domain)
                &&& after.contains_key(key)
                &&& domain matches Some(name) ==> after[key] == FlowKnowledge::Resolved(name)
                &&& domain is None ==> (after[key] matches FlowKnowledge::NoDomain { attempts }
                    && attempts == failures + 1)
                &&& forall|other: FlowKey| #[trigger]
                    after.contains_key(other) && other != key ==> before.contains_key(other)
                        && after[other] == before[other]
                &&& forall|other: FlowKey| #[trigger]
                    before.contains_key(other) ==> after.contains_key(other)
            }
        },
{
}

} // verus!
