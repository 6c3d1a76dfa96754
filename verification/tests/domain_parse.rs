//! Reading host names out of payloads.

use flowlens::domain_parse::DomainParser;
use flowlens::domain_parse_composite::CompositeDomainParser;
use flowlens::domain_parse_http::{HttpDomainParser, MAX_HEADERS};
use flowlens::domain_parse_tls::TlsDomainParser;

/// Build a TLS record: `content_type(1) | version(2) | length(2) | payload`.
fn tls_record(content_type: u8, payload: &[u8]) -> Vec<u8> {
    let mut record = Vec::with_capacity(5 + payload.len());
    record.push(content_type);
    record.extend_from_slice(&[0x03, 0x01]); // record version: TLS 1.0
    record.extend_from_slice(&(payload.len() as u16).to_be_bytes());
    record.extend_from_slice(payload);
    record
}

/// Build a TLS record with ContentType=Handshake(0x16); the payload is a handshake message.
fn tls_record_handshake(handshake_msg: &[u8]) -> Vec<u8> {
    tls_record(0x16, handshake_msg)
}

/// Build a handshake message: `msg_type(1) | length(3) | body`.
fn handshake_msg(msg_type: u8, body: &[u8]) -> Vec<u8> {
    let len = body.len() as u32;
    let mut msg = Vec::with_capacity(4 + body.len());
    msg.push(msg_type);
    msg.push((len >> 16) as u8);
    msg.push((len >> 8) as u8);
    msg.push(len as u8);
    msg.extend_from_slice(body);
    msg
}

/// Build a ClientHello body (the payload of handshake type=0x01), with an
/// optional SNI and extra extensions.
fn client_hello_body(sni: Option<&str>, extra_extensions: &[Vec<u8>]) -> Vec<u8> {
    let mut body = Vec::new();
    // version: TLS 1.2
    body.extend_from_slice(&[0x03, 0x03]);
    // random: 32 zero bytes
    body.extend_from_slice(&[0u8; 32]);
    // session_id: empty
    body.push(0x00);
    // cipher_suites: a single suite
    body.extend_from_slice(&[0x00, 0x02]); // length=2
    body.extend_from_slice(&[0x00, 0x2F]); // TLS_RSA_WITH_AES_128_CBC_SHA
    // compression_methods: null
    body.push(0x01); // length=1
    body.push(0x00); // null

    // assemble the extensions
    let mut extensions_buf = Vec::new();
    if let Some(name) = sni {
        extensions_buf.extend_from_slice(&sni_extension(name));
    }
    for ext in extra_extensions {
        extensions_buf.extend_from_slice(ext);
    }

    if !extensions_buf.is_empty() {
        body.extend_from_slice(&(extensions_buf.len() as u16).to_be_bytes());
        body.extend_from_slice(&extensions_buf);
    }

    // wrap into a handshake msg (type=0x01)
    handshake_msg(0x01, &body)
}

/// Build an SNI extension (type=0x0000, a single host_name entry).
fn sni_extension(hostname: &str) -> Vec<u8> {
    let name = hostname.as_bytes();
    let name_len = name.len();
    let list_len = 1 + 2 + name_len; // name_type + name_length + name
    let ext_data_len = 2 + list_len; // server_name_list_length + list

    let mut ext = Vec::new();
    ext.extend_from_slice(&[0x00, 0x00]); // type: server_name
    ext.extend_from_slice(&(ext_data_len as u16).to_be_bytes());
    ext.extend_from_slice(&(list_len as u16).to_be_bytes()); // server_name_list_length
    ext.push(0x00); // name_type: host_name
    ext.extend_from_slice(&(name_len as u16).to_be_bytes());
    ext.extend_from_slice(name);
    ext
}

/// Build an arbitrary extension: `type(2) | length(2) | data`.
fn build_raw_extension(ext_type: u16, data: &[u8]) -> Vec<u8> {
    let mut ext = Vec::with_capacity(4 + data.len());
    ext.extend_from_slice(&ext_type.to_be_bytes());
    ext.extend_from_slice(&(data.len() as u16).to_be_bytes());
    ext.extend_from_slice(data);
    ext
}

/// Build valid draft-ietf-tls-esni EncryptedServerName data.
///
/// Field order (from the tls-parser source, parse_tls_extension_encrypted_server_name):
/// ciphersuite(2) | group(2) | key_share<2+> | record_digest<2+> | encrypted_sni<2+>
fn valid_draft_ech_data() -> Vec<u8> {
    let mut data = Vec::new();
    data.extend_from_slice(&[0x00, 0x01]); // ciphersuite
    data.extend_from_slice(&[0x00, 0x17]); // group: x25519
    data.extend_from_slice(&[0x00, 0x01, 0xAA]); // key_share: len=1
    data.extend_from_slice(&[0x00, 0x01, 0xBB]); // record_digest: len=1
    data.extend_from_slice(&[0x00, 0x01, 0xCC]); // encrypted_sni: len=1
    data
}

/// Build a complete TLS ClientHello handshake record carrying an SNI (convenience wrapper).
fn tls_client_hello_with_sni(name: &str) -> Vec<u8> {
    let body = client_hello_body(Some(name), &[]);
    tls_record_handshake(&body)
}

/// Build a complete TLS ClientHello handshake record with an ECH extension
/// (RFC 9849 0xFE0D).
///
/// Used to exercise the ECH path — the outer SNI is the cover domain
/// "cover.example". For the draft code point (0xFFCE) or custom bytes,
/// combine `client_hello_body` + `build_raw_extension` directly.
fn tls_client_hello_with_ech() -> Vec<u8> {
    let ech_ext = build_raw_extension(0xFE0D, &[0xDE, 0xAD, 0xBE, 0xEF]);
    let body = client_hello_body(Some("cover.example"), &[ech_ext]);
    tls_record_handshake(&body)
}

// ── routing branches ────────────────────────────────────────────

#[test]
fn routes_tls_payload_to_tls_parser() {
    let record = tls_client_hello_with_sni("example.com");

    let domain = CompositeDomainParser::new()
        .parse_domain(&record)
        .expect("TLS payload 应由 TLS 分支解析");
    assert_eq!(domain.as_str(), "example.com");
}

#[test]
fn routes_http_payload_to_http_parser() {
    let req = b"GET / HTTP/1.1\r\nHost: example.com\r\n\r\n";

    let domain = CompositeDomainParser::new()
        .parse_domain(req)
        .expect("HTTP payload 应由 HTTP 分支解析");
    assert_eq!(domain.as_str(), "example.com");
}

// ── failure paths ───────────────────────────────────────────────

#[test]
fn returns_none_for_non_tls_non_http_payload() {
    // 0xAA is neither a TLS handshake nor an HTTP request line; httparse fails to parse -> None
    let binary: &[u8] = &[0xAA, 0xBB, 0xCC, 0xDD];
    assert!(CompositeDomainParser::new().parse_domain(binary).is_none());
}

#[test]
fn returns_none_for_ech_tls_payload() {
    // A TLS ClientHello with an ECH extension is handled by the TLS branch
    // and returns None (tls-parser recognizes ECH and drops the outer SNI).
    let record = tls_client_hello_with_ech();

    assert!(CompositeDomainParser::new().parse_domain(&record).is_none());
}

#[test]
fn domain_parse_composite_returns_none_for_empty_payload() {
    assert!(CompositeDomainParser::new().parse_domain(&[]).is_none());
}

#[test]
fn domain_parse_composite_returns_none_for_application_data_record() {
    // TLS ApplicationData starting with 0x17 is not a handshake -> HTTP branch -> httparse fails
    let record = tls_record(0x17, &[0x01, 0x02, 0x03, 0x04]);
    assert!(CompositeDomainParser::new().parse_domain(&record).is_none());
}

#[test]
fn domain_parse_composite_returns_none_for_http_response() {
    // An HTTP response (outbound responses are not a Host source) starts
    // with H(0x48), not 0x16 -> HTTP branch; httparse rejects the
    // response-line format -> None.
    let resp = b"HTTP/1.1 200 OK\r\nContent-Length: 0\r\n\r\n";
    assert!(CompositeDomainParser::new().parse_domain(resp).is_none());
}

// ── success paths ────────────────────────────────────────────────

#[test]
fn parses_host_from_get_request() {
    let req = b"GET / HTTP/1.1\r\nHost: example.com\r\n\r\n";

    let domain = HttpDomainParser::new()
        .parse_domain(req)
        .expect("应从 GET 请求提取 Host");
    assert_eq!(domain.as_str(), "example.com");
}

#[test]
fn parses_host_from_post_request() {
    let body = b"hello world";
    let req = format!(
        "POST /api/submit HTTP/1.1\r\n\
         Host: api.example.com\r\n\
         Content-Type: text/plain\r\n\
         Content-Length: {}\r\n\
         \r\n",
        body.len()
    );

    let mut bytes = req.into_bytes();
    bytes.extend_from_slice(body);

    let domain = HttpDomainParser::new()
        .parse_domain(&bytes)
        .expect("应从 POST 请求提取 Host");
    assert_eq!(domain.as_str(), "api.example.com");
}

#[test]
fn parses_host_with_other_headers_present() {
    let req = b"GET /index.html HTTP/1.1\r\n\
                Accept: */*\r\n\
                Accept-Language: en-US\r\n\
                User-Agent: flowlens-test/1.0\r\n\
                Host: example.com\r\n\
                Connection: keep-alive\r\n\
                \r\n";

    let domain = HttpDomainParser::new()
        .parse_domain(req)
        .expect("应在多个 header 中找到 Host");
    assert_eq!(domain.as_str(), "example.com");
}

#[test]
fn parses_host_preserving_case_and_trailing_form() {
    // No extra normalization: case, trailing dot and port suffix are kept verbatim.
    let req = b"GET / HTTP/1.1\r\nHost: Example.COM.:8080\r\n\r\n";

    let domain = HttpDomainParser::new()
        .parse_domain(req)
        .expect("应返回 Host 头的原始值");
    assert_eq!(domain.as_str(), "Example.COM.:8080");
}

// ── Host header name is case-insensitive (HTTP spec) ─────────────

#[test]
fn matches_host_header_case_insensitively() {
    // httparse keeps header names in wire form, so this parser compares
    // with eq_ignore_ascii_case. Covers the three common spellings.
    for name in ["Host", "host", "HOST"] {
        let req = format!("{name}: example.com\r\n");
        let buf = format!("GET / HTTP/1.1\r\n{req}\r\n");
        let domain = HttpDomainParser::new()
            .parse_domain(buf.as_bytes())
            .unwrap_or_else(|| panic!("应匹配大小写变体：{name}"));
        assert_eq!(domain.as_str(), "example.com");
    }
}

// ── failure paths ────────────────────────────────────────────────

#[test]
fn returns_none_for_partial_first_packet() {
    // The payload holds the request line + partial headers, missing the \r\n\r\n terminator.
    let req = b"GET / HTTP/1.1\r\nHost: example.com";

    assert!(HttpDomainParser::new().parse_domain(req).is_none());
}

#[test]
fn returns_none_for_request_without_host() {
    let req = b"GET / HTTP/1.1\r\nAccept: */*\r\n\r\n";

    assert!(HttpDomainParser::new().parse_domain(req).is_none());
}

#[test]
fn returns_none_for_http_1_0_request_without_host() {
    // HTTP/1.0 allows requests without Host (RFC 1945) and httparse
    // still parses them; this parser returns None for a missing Host.
    let req = b"GET / HTTP/1.0\r\n\r\n";

    assert!(HttpDomainParser::new().parse_domain(req).is_none());
}

#[test]
fn domain_parse_http_returns_none_for_http_response() {
    // Outbound responses must not be treated as a Host source — this parser only recognizes the request-line format.
    let resp = b"HTTP/1.1 200 OK\r\nContent-Length: 0\r\n\r\n";

    assert!(HttpDomainParser::new().parse_domain(resp).is_none());
}

#[test]
fn returns_none_for_non_http_bytes() {
    // TLS ClientHello bytes, random binary and plain text must not be treated as HTTP requests.
    let tls_bytes = b"\x16\x03\x01\x00\x05\x01\x00\x00\x01\x03";
    assert!(HttpDomainParser::new().parse_domain(tls_bytes).is_none());

    let binary = b"\xff\xfe\xfd\xfc";
    assert!(HttpDomainParser::new().parse_domain(binary).is_none());

    let text = b"not a request line at all";
    assert!(HttpDomainParser::new().parse_domain(text).is_none());
}

#[test]
fn domain_parse_http_returns_none_for_empty_payload() {
    assert!(HttpDomainParser::new().parse_domain(&[]).is_none());
}

#[test]
fn returns_none_for_truncated_request_line() {
    // A handful of bytes — not even a complete request line.
    assert!(HttpDomainParser::new().parse_domain(b"GET / HT").is_none());
}

#[test]
fn returns_none_for_empty_host_header() {
    // The Host header is present but empty — an empty string is not a valid domain, so return None.
    let req = b"GET / HTTP/1.1\r\nHost:\r\n\r\n";

    assert!(HttpDomainParser::new().parse_domain(req).is_none());
}

#[test]
fn returns_none_for_too_many_headers() {
    // Exceeding MAX_HEADERS (64) should make httparse return TooManyHeaders -> None.
    let mut buf: Vec<u8> = b"GET / HTTP/1.1\r\n".to_vec();
    for i in 0..(MAX_HEADERS + 1) {
        buf.extend_from_slice(format!("X-Custom-{i}: v\r\n").as_bytes());
    }
    buf.extend_from_slice(b"Host: example.com\r\n\r\n");

    assert!(HttpDomainParser::new().parse_domain(&buf).is_none());
}

// ── success paths ────────────────────────────────────────────────

#[test]
fn parses_sni_from_client_hello_with_sni() {
    let record = tls_record_handshake(&client_hello_body(Some("example.com"), &[]));

    let domain = TlsDomainParser::new()
        .parse_domain(&record)
        .expect("应从 ClientHello 提取 SNI");
    assert_eq!(domain.as_str(), "example.com");
}

#[test]
fn parses_long_sni_from_client_hello() {
    let name = "very-long-subdomain.example.invalid";
    let record = tls_record_handshake(&client_hello_body(Some(name), &[]));

    let domain = TlsDomainParser::new()
        .parse_domain(&record)
        .expect("应提取较长的 SNI");
    assert_eq!(domain.as_str(), name);
}

#[test]
fn parses_sni_when_other_extensions_present() {
    let renegotiation = build_raw_extension(0xFF01, &[0x00]);
    let record =
        tls_record_handshake(&client_hello_body(Some("example.com"), &[renegotiation]));

    let domain = TlsDomainParser::new()
        .parse_domain(&record)
        .expect("应跳过非 SNI/ECH extension 并提取 SNI");
    assert_eq!(domain.as_str(), "example.com");
}

// ── ECH paths ────────────────────────────────────────────────────

#[test]
fn returns_none_for_draft_encrypted_server_name_extension() {
    let ech = build_raw_extension(0xFFCE, &valid_draft_ech_data());
    let record = tls_record_handshake(&client_hello_body(Some("cover.example"), &[ech]));

    assert!(TlsDomainParser::new().parse_domain(&record).is_none());
}

#[test]
fn returns_none_for_rfc9849_ech_extension() {
    let ech = build_raw_extension(0xFE0D, &[0xDE, 0xAD, 0xBE, 0xEF]);
    let record = tls_record_handshake(&client_hello_body(Some("cover.example"), &[ech]));

    assert!(TlsDomainParser::new().parse_domain(&record).is_none());
}

#[test]
fn ech_takes_precedence_over_sni() {
    // RFC 9849 §4: ECH clients should also send an outer SNI as cover.
    // The parser must drop the outer SNI whenever ECH is present.
    let ech = build_raw_extension(0xFE0D, &[0x00, 0x01, 0x02]);
    let record = tls_record_handshake(&client_hello_body(Some("cover.example"), &[ech]));

    assert!(TlsDomainParser::new().parse_domain(&record).is_none());
}

// ── failure paths ────────────────────────────────────────────────

#[test]
fn returns_none_for_client_hello_without_extensions() {
    let record = tls_record_handshake(&client_hello_body(None, &[]));

    assert!(TlsDomainParser::new().parse_domain(&record).is_none());
}

#[test]
fn returns_none_for_client_hello_with_extensions_but_no_sni() {
    let renegotiation = build_raw_extension(0xFF01, &[0x00]);
    let record = tls_record_handshake(&client_hello_body(None, &[renegotiation]));

    assert!(TlsDomainParser::new().parse_domain(&record).is_none());
}

#[test]
fn domain_parse_tls_returns_none_for_application_data_record() {
    let record = tls_record(0x17, &[0x01, 0x02, 0x03, 0x04]);

    assert!(TlsDomainParser::new().parse_domain(&record).is_none());
}

#[test]
fn returns_none_for_alert_record() {
    let record = tls_record(0x15, &[0x01, 0x00]);

    assert!(TlsDomainParser::new().parse_domain(&record).is_none());
}

#[test]
fn domain_parse_tls_returns_none_for_empty_payload() {
    assert!(TlsDomainParser::new().parse_domain(&[]).is_none());
}

#[test]
fn returns_none_for_truncated_record_header() {
    assert!(TlsDomainParser::new().parse_domain(&[0x16, 0x03]).is_none());
}

#[test]
fn returns_none_for_truncated_handshake_body() {
    // The record header declares a 64-byte payload but only 5 bytes follow.
    let mut record = vec![0x16, 0x03, 0x01, 0x00, 0x40];
    record.extend_from_slice(&[0x01, 0x00, 0x00, 0x3F, 0x03]);

    assert!(TlsDomainParser::new().parse_domain(&record).is_none());
}

#[test]
fn returns_none_for_non_tls_payload() {
    let payload = b"GET / HTTP/1.1\r\nHost: example.com\r\n\r\n";

    assert!(TlsDomainParser::new().parse_domain(payload).is_none());
}

#[test]
fn returns_none_for_non_handshake_record_with_handshake_bytes_in_payload() {
    // An ApplicationData payload that happens to start with 0x01 must not be treated as a ClientHello.
    let payload = [0x01, 0x00, 0x00, 0x10, 0x03, 0x03, 0x00, 0x00];
    let record = tls_record(0x17, &payload);

    assert!(TlsDomainParser::new().parse_domain(&record).is_none());
}
