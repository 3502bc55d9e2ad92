use sievetube::addr::{
    format_ip, format_socket, parse_ip, parse_ipv4, parse_ipv6, parse_socket, IpAddr, SocketAddr,
};
use sievetube::auth::{
    judge, sign_jwt, verify_jwt, verify_jwt_any, RawClaims, TunnelClaims, Validity,
};
use sievetube::config::{Protocol, Target};
use sievetube::digest::sha256_hex;
use sievetube::error::SieveTubeError;
use sievetube::hostname::{
    is_within_zone, matches_pattern, normalize_dns_name, normalize_hostname,
    normalize_hostname_pattern, split_authority, wildcard_for,
};
use sievetube::json::write_json_list;
use sievetube::mesh_protocol::{
    ForwardRequest, ForwardResponse, MeshDatagramHeader, MeshDatagramKind, RejectReason,
    MAX_ID_LEN, MAX_MESH_FRAME, MESH_VERSION, TAG_FORWARD_REQUEST, TAG_FORWARD_RESPONSE,
};
use sievetube::protocol::{
    AuthRequest, AuthResponse, ConnectRequest, DatagramHeader, Message, MessageKind, MAX_FRAME_SIZE,
};
use sievetube::text::{digits_text, join_text, parse_unsigned, split_text, trim};
use sievetube::text_map::TextMap;
use sievetube::text_set::TextSet;
use sievetube::{mesh_protocol, protocol};

fn now() -> u64 {
    std::time::SystemTime::now()
        .duration_since(std::time::UNIX_EPOCH)
        .unwrap()
        .as_secs()
}

fn make_claims(exp_offset_secs: i64) -> TunnelClaims {
    let now = now();
    TunnelClaims {
        sub: "tenant-123".to_string(),
        hostnames: vec!["web.example.com".to_string()],
        exp: (now as i64 + exp_offset_secs) as u64,
        iat: now,
    }
}

#[test]
fn valid_jwt_roundtrip() {
    let secret = b"supersecret";
    let claims = make_claims(3600);
    let token = sign_jwt(&claims, secret).unwrap();
    let decoded = verify_jwt(&token, secret).unwrap();
    assert_eq!(decoded.claims.sub, "tenant-123");
    assert_eq!(decoded.claims.hostnames, vec!["web.example.com"]);
    assert_eq!(decoded.claims.exp, claims.exp);
    assert_eq!(decoded.claims.iat, claims.iat);
}

#[test]
fn wrong_secret_rejected() {
    let token = sign_jwt(&make_claims(3600), b"secret-a").unwrap();
    assert!(verify_jwt(&token, b"secret-b").is_err());
}

#[test]
fn expired_token_rejected() {
    let claims = make_claims(-3600);
    let token = sign_jwt(&claims, b"secret").unwrap();
    assert!(verify_jwt(&token, b"secret").is_err());
}

#[test]
fn retained_secret_allows_rolling_rotation() {
    let token = sign_jwt(&make_claims(3600), b"old-secret").unwrap();
    let secrets = vec![b"new-secret".to_vec(), b"old-secret".to_vec()];
    assert!(verify_jwt_any(&token, &secrets).is_ok());
}

#[test]
fn without_secrets_no_token_is_accepted() {
    let token = sign_jwt(&make_claims(3600), b"secret").unwrap();
    let error = verify_jwt_any(&token, &[]).unwrap_err();
    assert_eq!(error.message(), "authentication failed: no JWT secrets configured");
}

#[test]
fn incomplete_claims_are_rejected() {
    let raw = |sub: Option<&str>| RawClaims {
        sub: sub.map(|s| Ok(s.to_string())),
        hostnames: Some(Ok(vec![])),
        exp: Some(Ok(1)),
        iat: Some(Ok(2)),
    };
    let text = |raw: Result<RawClaims, String>, validity: Validity| match judge(raw, validity) {
        Err(SieveTubeError::Auth(text)) => text,
        other => panic!("{other:?}"),
    };
    assert_eq!(text(Ok(raw(None)), Validity::Expired), "JSON error: missing field `sub`");
    let mut timeless = raw(None);
    timeless.exp = Some(Err("no number".to_string()));
    assert_eq!(text(Ok(timeless), Validity::Valid), "JSON error: no number");
    assert_eq!(text(Ok(raw(Some("t"))), Validity::Expired), "ExpiredSignature");
    assert_eq!(text(Ok(raw(Some("t"))), Validity::Rejected("no".to_string())), "no");
    assert_eq!(text(Err("garbage".to_string()), Validity::Valid), "garbage");
    assert_eq!(judge(Ok(raw(Some("t"))), Validity::Valid).unwrap().claims.iat, 2);
}

/// A token with these claims.
fn token_of(claims: &str, secret: &[u8]) -> String {
    let claims: serde_json::Value = serde_json::from_str(claims).unwrap();
    let key = jsonwebtoken::EncodingKey::from_secret(secret);
    jsonwebtoken::encode(&jsonwebtoken::Header::default(), &claims, &key).unwrap()
}

#[test]
fn tokens_are_decoded_before_their_expiry_is_checked() {
    let text = |token: &str, secret: &[u8]| match verify_jwt(token, secret) {
        Err(SieveTubeError::Auth(text)) => text,
        other => panic!("{other:?}"),
    };
    let old = token_of(r#"{"sub":"t","hostnames":[],"exp":1,"iat":1}"#, b"secret");
    assert_eq!(text(&old, b"secret"), "ExpiredSignature");
    assert_eq!(text(&old, b"other"), "InvalidSignature");
    let partial = token_of(r#"{"sub":"t","exp":1,"iat":1}"#, b"secret");
    assert_eq!(text(&partial, b"secret"), "JSON error: missing field `hostnames`");
    let addressed =
        token_of(r#"{"sub":"t","hostnames":[],"exp":99999999999,"iat":1,"aud":"x"}"#, b"secret");
    assert_eq!(text(&addressed, b"secret"), "InvalidAudience");
    let timeless = token_of(r#"{"sub":"t","hostnames":[],"iat":1}"#, b"secret");
    assert_eq!(text(&timeless, b"secret"), "JSON error: missing field `exp`");
    let mistyped = token_of(r#"{"sub":5,"hostnames":[],"exp":99999999999,"iat":1}"#, b"secret");
    assert_eq!(
        text(&mistyped, b"secret"),
        "JSON error: invalid type: integer `5`, expected a string"
    );
    let mixed = token_of(r#"{"sub":"t","hostnames":[1],"exp":99999999999,"iat":-1}"#, b"secret");
    assert_eq!(
        text(&mixed, b"secret"),
        "JSON error: invalid type: integer `1`, expected a string"
    );
    let before = token_of(r#"{"sub":"t","hostnames":[],"exp":99999999999,"iat":-1}"#, b"secret");
    assert_eq!(
        text(&before, b"secret"),
        "JSON error: invalid value: integer `-1`, expected u64"
    );
    let list = token_of(r#"["t",[],99999999999,1]"#, b"secret");
    assert!(verify_jwt(&list, b"secret").is_err());
    let valid = token_of(r#"{"sub":"t","hostnames":["a.b"],"exp":99999999999,"iat":1}"#, b"secret");
    assert_eq!(verify_jwt(&valid, b"secret").unwrap().claims.hostnames, ["a.b"]);
}

#[test]
fn parse_target_address() {
    let t = Target::parse("127.0.0.1:8080").unwrap();
    assert!(matches!(t, Target::Address(_)));
    assert_eq!(t, Target::Address(SocketAddr::V4(0x7f00_0001, 8080)));
}

#[test]
fn parse_target_http_status() {
    let t = Target::parse("http_status:404").unwrap();
    assert!(matches!(t, Target::HttpStatus(404)));
}

#[test]
fn parse_protocol() {
    assert_eq!("http".parse::<Protocol>().unwrap(), Protocol::Http);
    assert_eq!("tcp".parse::<Protocol>().unwrap(), Protocol::Tcp);
    assert_eq!("udp".parse::<Protocol>().unwrap(), Protocol::Udp);
    assert_eq!("UdP".parse::<Protocol>().unwrap(), Protocol::Udp);
    assert_eq!("SCTP".parse::<Protocol>(), Err("unknown protocol: sctp".to_string()));
    assert_eq!(Protocol::parse("HTTP").unwrap(), Protocol::Http);
    assert!(Protocol::parse("sctp").is_err());
}

#[test]
fn normalizes_case_and_trailing_dot() {
    assert_eq!(
        normalize_hostname("Web.Example.COM.").unwrap(),
        "web.example.com"
    );
    assert_eq!(
        normalize_hostname("  api.example.com ").unwrap(),
        "api.example.com"
    );
}

#[test]
fn rejects_invalid_hostnames() {
    for bad in [
        "", ".", "a..b", "-a.com", "a-.com", "a_b.com", "*.a.com", "ü.com", "a b.com",
    ] {
        assert!(
            normalize_hostname(bad).is_err(),
            "{bad:?} should be rejected"
        );
    }
    assert!(normalize_hostname(&"a".repeat(64)).is_err());
    assert_eq!(normalize_hostname("").unwrap_err().message(), "empty hostname");
}

#[test]
fn normal_forms_are_stable() {
    for name in ["Web.Example.COM.", "a.b", " X.y "] {
        let once = normalize_hostname(name).unwrap();
        assert_eq!(normalize_hostname(&once).unwrap(), once);
    }
}

#[test]
fn wildcard_patterns() {
    assert_eq!(
        normalize_hostname_pattern("*.Example.com").unwrap(),
        "*.example.com"
    );
    assert!(normalize_hostname_pattern("*").is_err());
    assert!(normalize_hostname_pattern("a.*.com").is_err());
    assert!(matches_pattern("*.example.com", "a.example.com"));
    assert!(!matches_pattern("*.example.com", "a.b.example.com"));
    assert!(!matches_pattern("*.example.com", "example.com"));
    assert_eq!(
        wildcard_for("a.example.com").as_deref(),
        Some("*.example.com")
    );
    assert_eq!(wildcard_for("example.com"), None);
}

#[test]
fn dns_names_allow_underscore() {
    assert_eq!(
        normalize_dns_name("_acme-challenge.Example.com").unwrap(),
        "_acme-challenge.example.com"
    );
}

#[test]
fn splits_authority() {
    assert_eq!(
        split_authority("example.com").unwrap(),
        ("example.com", None)
    );
    assert_eq!(
        split_authority("example.com:8080").unwrap(),
        ("example.com", Some(8080))
    );
    assert_eq!(split_authority("[::1]:443").unwrap(), ("::1", Some(443)));
    assert_eq!(
        split_authority("example.com:").unwrap(),
        ("example.com", None)
    );
    assert!(split_authority("user@example.com").is_err());
    assert!(split_authority("::1").is_err());
    assert!(split_authority("example.com:99999").is_err());
}

#[test]
fn zone_membership() {
    assert!(is_within_zone("example.com", "example.com"));
    assert!(is_within_zone("a.example.com", "example.com"));
    assert!(is_within_zone("*.example.com", "example.com"));
    assert!(!is_within_zone("badexample.com", "example.com"));
}

fn request() -> ForwardRequest {
    ForwardRequest {
        version: MESH_VERSION,
        ingress_edge_id: "edge-a".into(),
        tenant_id: "tenant-1".into(),
        hostname: "web.example.com".into(),
        protocol: Protocol::Http,
        client_addr: parse_socket("203.0.113.5:40000").unwrap(),
        request_id: 7,
        hops_remaining: 1,
        connection_generation: 3,
    }
}

#[test]
fn forward_messages_round_trip() {
    let payload = b"a forwarded request";
    let frame = mesh_protocol::write_frame(TAG_FORWARD_REQUEST, payload).unwrap();
    assert_eq!(
        mesh_protocol::read_frame(&frame, TAG_FORWARD_REQUEST).unwrap().unwrap(),
        payload
    );
    let response = ForwardResponse::reject(RejectReason::NoRoute);
    assert!(!response.accepted);
    assert_eq!(response.reject, Some(RejectReason::NoRoute));
    assert!(ForwardResponse::accept().accepted);
    assert!(RejectReason::NoRoute.retryable());
    assert!(!RejectReason::NotAuthorized.retryable());
}

#[test]
fn rejects_oversized_and_mistagged_frames() {
    let mut oversized = Vec::new();
    oversized.extend_from_slice(&(MAX_MESH_FRAME + 1).to_be_bytes());
    oversized.push(TAG_FORWARD_REQUEST);
    assert!(mesh_protocol::read_frame(&oversized, TAG_FORWARD_REQUEST).is_err());

    let buf = mesh_protocol::write_frame(TAG_FORWARD_RESPONSE, b"{}").unwrap();
    assert!(mesh_protocol::read_frame(&buf, TAG_FORWARD_REQUEST).is_err());

    // The Connector protocol's AuthRequest tag is not a mesh message.
    let connector_frame = protocol::write_message(MessageKind::AuthRequest, b"x").unwrap();
    assert!(mesh_protocol::read_frame(&connector_frame, TAG_FORWARD_REQUEST).is_err());

    let huge = vec![b't'; MAX_MESH_FRAME as usize + 1];
    assert!(mesh_protocol::write_frame(TAG_FORWARD_REQUEST, &huge).is_err());
}

#[test]
fn validation() {
    assert_eq!(request().validate(), Ok(()));
    let mut r = request();
    r.version = 2;
    assert_eq!(r.validate(), Err(RejectReason::UnsupportedVersion));
    let mut r = request();
    r.hops_remaining = 0;
    assert_eq!(r.validate(), Err(RejectReason::HopLimit));
    let mut r = request();
    r.hostname = "Web.Example.com".into();
    assert_eq!(r.validate(), Err(RejectReason::Invalid));
    let mut r = request();
    r.tenant_id = String::new();
    assert_eq!(r.validate(), Err(RejectReason::Invalid));
}

#[test]
fn datagram_header_round_trip_and_rejects_garbage() {
    let header = MeshDatagramHeader {
        kind: MeshDatagramKind::Reply,
        request_id: 99,
        connection_generation: 4,
        ingress_edge_id: "edge-a".into(),
        tenant_id: "tenant".into(),
        hostname: "game.example.com".into(),
    };
    let encoded = header.encode(b"payload").unwrap();
    assert_eq!(encoded.len(), header.encoded_len() + 7);
    let (decoded, payload) = MeshDatagramHeader::decode(&encoded).unwrap();
    assert_eq!(decoded, header);
    assert_eq!(payload, b"payload");

    assert!(MeshDatagramHeader::decode(&encoded[..10]).is_err());
    let mut wrong_version = encoded.to_vec();
    wrong_version[0] = 9;
    assert!(MeshDatagramHeader::decode(&wrong_version).is_err());
    let mut bad_length = encoded.to_vec();
    bad_length[18] = 0xff;
    assert!(MeshDatagramHeader::decode(&bad_length).is_err());
}

#[test]
fn datagram_headers_are_read_whole_and_written_back() {
    let header = MeshDatagramHeader {
        kind: MeshDatagramKind::Request,
        request_id: u64::MAX,
        connection_generation: 258,
        ingress_edge_id: "edge-a".into(),
        tenant_id: String::new(),
        hostname: "g\u{e4}me.test".into(),
    };
    let encoded = header.encode(b"xy").unwrap();
    let len = header.encoded_len();
    for k in 0..len {
        assert!(MeshDatagramHeader::decode(&encoded[..k]).is_err(), "{k}");
    }
    let (decoded, payload) = MeshDatagramHeader::decode(&encoded[..len]).unwrap();
    assert_eq!(decoded, header);
    assert!(payload.is_empty());

    let data = b"\x01\x02\0\0\0\0\0\0\0\x07\0\0\0\0\0\0\0\x09\0\x01a\0\0\0\x02bcrest";
    let (decoded, rest) = MeshDatagramHeader::decode(data).unwrap();
    assert_eq!((decoded.request_id, decoded.hostname.as_str(), rest), (7, "bc", &b"rest"[..]));
    assert_eq!(&decoded.encode(rest).unwrap()[..], &data[..]);
}

#[test]
fn encode_rejects_overlong_fields_instead_of_truncating() {
    let mut header = MeshDatagramHeader {
        kind: MeshDatagramKind::Request,
        request_id: 1,
        connection_generation: 1,
        ingress_edge_id: "edge-a".into(),
        tenant_id: "tenant".into(),
        hostname: "game.example.com".into(),
    };
    // A truncated hostname would resolve to a different registration.
    header.hostname = format!("{}.test", "h".repeat(MAX_ID_LEN));
    assert!(header.encode(b"payload").is_err());
    // Truncation must not be able to split a multi-byte character either.
    header.hostname = "game.example.com".into();
    header.tenant_id = "\u{3066}".repeat(MAX_ID_LEN);
    assert!(header.encode(b"payload").is_err());
}

#[test]
fn round_trip_auth_request() {
    let msg = Message::AuthRequest(AuthRequest {
        jwt: "test.jwt.token".to_string(),
        services: None,
    });
    let frame = protocol::write_message(msg.kind(), b"body").unwrap();
    let (kind, payload) = protocol::read_message(&frame).unwrap().unwrap();
    assert_eq!(kind, MessageKind::AuthRequest);
    assert_eq!(payload, b"body");
}

#[test]
fn round_trip_auth_response() {
    let msg = Message::AuthResponse(AuthResponse {
        ok: true,
        reason: None,
    });
    let frame = protocol::write_message(msg.kind(), b"{\"ok\":true}").unwrap();
    let (kind, payload) = protocol::read_message(&frame).unwrap().unwrap();
    assert_eq!(kind, MessageKind::AuthResponse);
    assert_eq!(payload, b"{\"ok\":true}");
}

#[test]
fn round_trip_connect_request() {
    let msg = Message::ConnectRequest(ConnectRequest {
        request_id: 42,
        hostname: "web.example.com".to_string(),
        protocol: Protocol::Http,
        client_addr: parse_socket("192.168.1.1:12345").unwrap(),
    });
    let frame = protocol::write_message(msg.kind(), &[]).unwrap();
    let (kind, payload) = protocol::read_message(&frame).unwrap().unwrap();
    assert_eq!(kind, MessageKind::ConnectRequest);
    assert!(payload.is_empty());
    // A frame that is not complete yet is not a message.
    assert!(protocol::read_message(&frame[..frame.len() - 1]).unwrap().is_none());
    assert!(protocol::check_frame_len(MAX_FRAME_SIZE + 1).is_err());
    assert!(MessageKind::from_tag(0xee).is_err());
}

#[test]
fn datagram_header_round_trip() {
    let header = DatagramHeader {
        request_id: 99,
        hostname: "game.example.com".to_string(),
    };
    let payload = b"hello udp";
    let encoded = header.encode(payload);
    let (decoded, decoded_payload) = DatagramHeader::decode(&encoded).unwrap();
    assert_eq!(decoded.request_id, 99);
    assert_eq!(decoded.hostname, "game.example.com");
    assert_eq!(decoded_payload, payload);
    assert!(DatagramHeader::decode(&encoded[..3]).is_none());
}

#[test]
fn addresses_read_back() {
    for text in ["0.0.0.0", "203.0.113.5", "255.255.255.255"] {
        assert_eq!(format_ip(IpAddr::V4(parse_ipv4(text).unwrap())), text);
    }
    for text in ["::", "::1", "2001:db8::1", "1:2:3:4:5:6:7:8", "::ffff:1.2.3.4"] {
        assert_eq!(format_ip(parse_ip(text).unwrap()), text);
    }
    assert_eq!(parse_ipv6("1:2"), None);
    assert_eq!(parse_ipv4("1.2.3.04"), None);
    assert_eq!(format_socket(parse_socket("[::1]:443").unwrap()), "[::1]:443");
    assert_eq!(parse_socket("1.2.3.4"), None);
}

#[test]
fn texts_are_split_joined_and_read() {
    let parts = split_text("a,b,,c", ',');
    assert_eq!(parts, ["a", "b", "", "c"]);
    assert_eq!(join_text(&parts, ","), "a,b,,c");
    assert_eq!(trim(" \tx\u{a0}"), "x");
    assert_eq!(digits_text(255, 16), "ff");
    assert_eq!(parse_unsigned("+42", 100), Some(42));
    assert_eq!(parse_unsigned("101", 100), None);
}

#[test]
fn digests_are_hexadecimal() {
    assert_eq!(
        sha256_hex(b"abc"),
        "ba7816bf8f01cfea414140de5dae2223b00361a396177a9cb410ff61f20015ad"
    );
}

#[test]
fn json_texts_are_escaped() {
    let items = vec!["a\"b".to_string(), "\\\n\u{1}é\u{8}\u{c}\r\t".to_string()];
    assert_eq!(
        write_json_list(&items),
        "[\"a\\\"b\",\"\\\\\\n\\u0001é\\b\\f\\r\\t\"]"
    );
}

#[test]
fn sets_and_maps_are_ordered() {
    let mut set = TextSet::from_vec(vec!["b".into(), "a".into(), "b".into()]);
    assert_eq!(set.len(), 2);
    assert_eq!(set.item(0), "a");
    set.insert("0".into());
    set.remove("b");
    assert!(!set.contains("b"));
    assert!(set.same(&TextSet::from_vec(vec!["a".into(), "0".into()])));
    let mut map: TextMap<u8> = TextMap::new();
    map.insert("y".into(), 1);
    map.insert("x".into(), 2);
    map.insert("y".into(), 3);
    assert_eq!(map.len(), 2);
    assert_eq!(map.key_at(0), "x");
    assert_eq!(map.get("y"), Some(&3));
    map.remove("x");
    assert!(!map.contains("x"));
}
