//! The host name in a TLS ClientHello.
//!
//! A ClientHello that carries an encrypted one hides the real host name, so it
//! yields none, whatever name it shows on the outside.

use vstd::prelude::*;

use crate::domain_parse::DomainParser;
use crate::text::{text_from_utf8, text_view, utf8_text};

verus! {

/// The type of the `encrypted_client_hello` extension.
pub const ECH_EXTENSION_TYPE: u16 = 0xFE0D;

/// The type of the earlier `encrypted_server_name` extension.
pub const ENCRYPTED_SERVER_NAME_TYPE: u16 = 0xFFCE;

/// A message of a TLS record.
#[derive(Debug, PartialEq, Eq)]
pub enum TlsRecordMessage {
    /// A ClientHello with its extensions, still in their wire form.
    ClientHello { extensions: Option<Vec<u8>> },
    Other,
}

/// An extension of a ClientHello.
#[derive(Debug, PartialEq, Eq)]
pub enum HelloExtension {
    /// The server names, each with the number of its kind.
    ServerNames(Vec<(u8, Vec<u8>)>),
    EncryptedServerName,
    /// An extension of a type that has no name here.
    Unknown(u16),
    Other,
}

/// A message of a TLS record, as a mathematical value.
pub ghost enum MessageView {
    ClientHello { extensions: Option<Seq<u8>> },
    Other,
}

/// An extension of a ClientHello, as a mathematical value.
pub ghost enum ExtensionView {
    ServerNames(Seq<(u8, Seq<u8>)>),
    EncryptedServerName,
    Unknown(u16),
    Other,
}

impl View for TlsRecordMessage {
    type V = MessageView;

    open spec fn view(&self) -> MessageView {
        match *self {
            TlsRecordMessage::ClientHello { extensions } => MessageView::ClientHello {
                extensions: match extensions {
                    Some(bytes) => Some(bytes@),
                    None => None,
                },
            },
            TlsRecordMessage::Other => MessageView::Other,
        }
    }
}

/// Server names as mathematical values.
pub open spec fn name_views(names: Seq<(u8, Vec<u8>)>) -> Seq<(u8, Seq<u8>)> {
    names.map_values(|name: (u8, Vec<u8>)| (name.0, name.1@))
}

impl View for HelloExtension {
    type V = ExtensionView;

    open spec fn view(&self) -> ExtensionView {
        match *self {
            HelloExtension::ServerNames(names) => ExtensionView::ServerNames(name_views(names@)),
            HelloExtension::EncryptedServerName => ExtensionView::EncryptedServerName,
            HelloExtension::Unknown(kind) => ExtensionView::Unknown(kind),
            HelloExtension::Other => ExtensionView::Other,
        }
    }
}

/// The messages of a record, as mathematical values.
pub open spec fn message_views(messages: Option<Vec<TlsRecordMessage>>) -> Option<Seq<MessageView>> {
    match messages {
        Some(messages) => Some(messages@.map_values(|message: TlsRecordMessage| message@)),
        None => None,
    }
}

/// Extensions as mathematical values.
pub open spec fn extension_views(extensions: Seq<HelloExtension>) -> Seq<ExtensionView> {
    extensions.map_values(|extension: HelloExtension| extension@)
}

/// The messages that `tls_parser::parse_tls_plaintext` reads from the first record
/// of a payload, if it can.
pub uninterp spec fn record_messages(payload: Seq<u8>) -> Option<Seq<MessageView>>;

/// The extensions that `tls_parser::parse_tls_extensions` reads, if it can.
pub uninterp spec fn hello_extensions(bytes: Seq<u8>) -> Option<Seq<ExtensionView>>;

/// Reads the first TLS record of a payload with `tls_parser::parse_tls_plaintext`.
/// What it reads depends on the payload alone.
#[verifier::external_body]
fn read_record(payload: &[u8]) -> (messages: Option<Vec<TlsRecordMessage>>)
    ensures
        message_views(messages) == record_messages(payload@),
{
    match tls_parser::parse_tls_plaintext(payload) {
        Ok((_, record)) => Some(record.msg.iter().map(|message| match message {
            tls_parser::TlsMessage::Handshake(
                tls_parser::TlsMessageHandshake::ClientHello(hello),
            ) => TlsRecordMessage::ClientHello { extensions: hello.ext.map(|ext| ext.to_vec()) },
            _ => TlsRecordMessage::Other,
        }).collect()),
        Err(_) => None,
    }
}

/// Reads the extensions of a ClientHello with `tls_parser::parse_tls_extensions`.
/// What it reads depends on the bytes alone.
#[verifier::external_body]
fn read_extensions(bytes: &[u8]) -> (extensions: Option<Vec<HelloExtension>>)
    ensures
        match extensions {
            Some(extensions) => hello_extensions(bytes@) == Some(extension_views(extensions@)),
            None => hello_extensions(bytes@) is None,
        },
{
    match tls_parser::parse_tls_extensions(bytes) {
        Ok((_, extensions)) => Some(extensions.iter().map(|extension| match extension {
            tls_parser::TlsExtension::SNI(names) => HelloExtension::ServerNames(
                names.iter().map(|(kind, name)| (kind.0, name.to_vec())).collect()),
            tls_parser::TlsExtension::EncryptedServerName { .. } =>
                HelloExtension::EncryptedServerName,
            tls_parser::TlsExtension::Unknown(kind, _) => HelloExtension::Unknown(kind.0),
            _ => HelloExtension::Other,
        }).collect()),
        Err(_) => None,
    }
}

/// Whether an extension hides the host name.
pub open spec fn hides_name(extension: ExtensionView) -> bool {
    match extension {
        ExtensionView::EncryptedServerName => true,
        ExtensionView::Unknown(kind) => kind == ECH_EXTENSION_TYPE || kind
            == ENCRYPTED_SERVER_NAME_TYPE,
        _ => false,
    }
}

/// Whether any extension hides the host name.
pub open spec fn ech_present(extensions: Seq<ExtensionView>) -> bool {
    exists|i: int| 0 <= i < extensions.len() && hides_name(#[trigger] extensions[i])
}

/// The first server name that is a host name in valid UTF-8.
pub open spec fn first_host(names: Seq<(u8, Seq<u8>)>) -> Option<Seq<char>>
    decreases names.len(),
{
    if names.len() == 0 {
        None
    } else if names.first().0 == 0 && utf8_text(names.first().1) is Some {
        utf8_text(names.first().1)
    } else {
        first_host(names.drop_first())
    }
}

/// The first host name among the extensions.
pub open spec fn first_sni(extensions: Seq<ExtensionView>) -> Option<Seq<char>>
    decreases extensions.len(),
{
    if extensions.len() == 0 {
        None
    } else {
        let here = match extensions.first() {
            ExtensionView::ServerNames(names) => first_host(names),
            _ => None,
        };
        if here is Some {
            here
        } else {
            first_sni(extensions.drop_first())
        }
    }
}

/// The host name that the extensions of a ClientHello give: none if any of them
/// hides it.
pub open spec fn extensions_domain(extensions: Seq<ExtensionView>) -> Option<Seq<char>> {
    if ech_present(extensions) {
        None
    } else {
        first_sni(extensions)
    }
}

/// The extensions of the first ClientHello among the messages.
pub open spec fn first_hello(messages: Seq<MessageView>) -> Option<Option<Seq<u8>>>
    decreases messages.len(),
{
    if messages.len() == 0 {
        None
    } else {
        match messages.first() {
            MessageView::ClientHello { extensions } => Some(extensions),
            MessageView::Other => first_hello(messages.drop_first()),
        }
    }
}

/// The host name that a payload gives.
pub open spec fn tls_domain(payload: Seq<u8>) -> Option<Seq<char>> {
    match record_messages(payload) {
        Some(messages) => match first_hello(messages) {
            Some(Some(bytes)) => match hello_extensions(bytes) {
                Some(extensions) => extensions_domain(extensions),
                None => None,
            },
            _ => None,
        },
        None => None,
    }
}

/// Whether any extension hides the host name.
pub fn has_ech(extensions: &Vec<HelloExtension>) -> (present: bool)
    ensures
        present == ech_present(extension_views(extensions@)),
{
    let ghost views = extension_views(extensions@);
    let mut i: usize = 0;
    while i < extensions.len()
        invariant
            i <= extensions@.len(),
            views == extension_views(extensions@),
            forall|j: int| 0 <= j < i ==> !hides_name(#[trigger] views[j]),
        decreases extensions@.len() - i,
    {
        assert(views[i as int] == extensions@[i as int]@);
        let hides = match &extensions[i] {
            HelloExtension::EncryptedServerName => true,
            HelloExtension::Unknown(kind) => *kind == ECH_EXTENSION_TYPE || *kind
                == ENCRYPTED_SERVER_NAME_TYPE,
            _ => false,
        };
        if hides {
            return true;
        }
        i += 1;
    }
    false
}

/// The first server name that is a host name in valid UTF-8.
fn host_among(names: &Vec<(u8, Vec<u8>)>) -> (host: Option<String>)
    ensures
        text_view(host) == first_host(name_views(names@)),
{
    let ghost views = name_views(names@);
    let mut i: usize = 0;
    assert(views.skip(0) =~= views);
    while i < names.len()
        invariant
            i <= names@.len(),
            views == name_views(names@),
            first_host(views) == first_host(views.skip(i as int)),
        decreases names@.len() - i,
    {
        assert(views.skip(i as int).drop_first() =~= views.skip(i + 1));
        assert(views.skip(i as int).first() == (names@[i as int].0, names@[i as int].1@));
        if names[i].0 == 0 {
            let host = text_from_utf8(names[i].1.as_slice());
            if host.is_some() {
                return host;
            }
        }
        i += 1;
    }
    None
}

/// The first host name among the extensions.
pub fn extract_sni(extensions: &Vec<HelloExtension>) -> (host: Option<String>)
    ensures
        text_view(host) == first_sni(extension_views(extensions@)),
{
    let ghost views = extension_views(extensions@);
    let mut i: usize = 0;
    assert(views.skip(0) =~= views);
    while i < extensions.len()
        invariant
            i <= extensions@.len(),
            views == extension_views(extensions@),
            first_sni(views) == first_sni(views.skip(i as int)),
        decreases extensions@.len() - i,
    {
        assert(views.skip(i as int).drop_first() =~= views.skip(i + 1));
        assert(views.skip(i as int).first() == extensions@[i as int]@);
        if let HelloExtension::ServerNames(names) = &extensions[i] {
            let host = host_among(names);
            if host.is_some() {
                return host;
            }
        }
        i += 1;
    }
    None
}

/// The host name that the extensions of a ClientHello give.
pub fn host_from_extensions(extensions: &Vec<HelloExtension>) -> (host: Option<String>)
    ensures
        text_view(host) == extensions_domain(extension_views(extensions@)),
{
    if has_ech(extensions) {
        None
    } else {
        extract_sni(extensions)
    }
}

/// The first ClientHello among the messages.
pub fn find_client_hello(messages: &Vec<TlsRecordMessage>) -> (hello: Option<&Option<Vec<u8>>>)
    ensures
        match hello {
            Some(extensions) => first_hello(
                messages@.map_values(|message: TlsRecordMessage| message@),
            ) == Some(
                match *extensions {
                    Some(bytes) => Some(bytes@),
                    None => None,
                },
            ),
            None => first_hello(
                messages@.map_values(|message: TlsRecordMessage| message@),
            ) is None,
        },
{
    let ghost views = messages@.map_values(|message: TlsRecordMessage| message@);
    let mut i: usize = 0;
    assert(views.skip(0) =~= views);
    while i < messages.len()
        invariant
            i <= messages@.len(),
            views == messages@.map_values(|message: TlsRecordMessage| message@),
            first_hello(views) == first_hello(views.skip(i as int)),
        decreases messages@.len() - i,
    {
        assert(views.skip(i as int).drop_first() =~= views.skip(i + 1));
        assert(views.skip(i as int).first() == messages@[i as int]@);
        if let TlsRecordMessage::ClientHello { extensions } = &messages[i] {
            return Some(extensions);
        }
        i += 1;
    }
    None
}

/// Reads host names out of TLS ClientHello messages.
pub struct TlsDomainParser {}

impl Default for TlsDomainParser {
    fn default() -> (parser: Self)
        ensures
            parser == (TlsDomainParser {  }),
    {
        TlsDomainParser::new()
    }
}

impl TlsDomainParser {
    pub fn new() -> (parser: Self)
        ensures
            parser == (TlsDomainParser {  }),
    {
        TlsDomainParser {  }
    }
}

impl DomainParser for TlsDomainParser {
    fn parse_domain(&self, tcp_payload: &[u8]) -> (domain: Option<String>)
        ensures
            text_view(domain) == tls_domain(tcp_payload@),
    {
        let messages = match read_record(tcp_payload) {
            Some(messages) => messages,
            None => {
                return None;
            },
        };
        match find_client_hello(&messages) {
            Some(Some(bytes)) => {
                match read_extensions(bytes.as_slice()) {
                    Some(extensions) => host_from_extensions(&extensions),
                    None => None,
                }
            },
            _ => None,
        }
    }
}

} // verus!
