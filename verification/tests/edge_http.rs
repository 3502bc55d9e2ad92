use http::header::{HeaderMap, HeaderName, HeaderValue};
use sievetube::addr::{parse_ip, parse_socket};
use sievetube::edge::acme::Http01Challenges;
use sievetube::edge::headers::{
    field_text, header_tokens, valid_field_name, valid_field_value, SURE_FIELD_NAMES,
};
use sievetube::edge::http_proxy::{
    backend_request, build_backend_request, challenge_response, permitted_response, request_authority,
    request_hostname, strip_hop_by_hop, upgrade_protocol, ChallengeReply, ConnInfo, Decision,
    Forwarded, OpenFailure, ProxyAction, ProxyEvent, ProxyRun, Rejection, RequestHead, Scheme,
    SendOutcome,
};
use sievetube::text_set::TextSet;

fn head(uri: &str, fields: &[(&str, &str)]) -> RequestHead {
    let uri: http::Uri = uri.parse().unwrap();
    let mut headers = HeaderMap::new();
    for (name, value) in fields {
        headers.append(
            HeaderName::from_bytes(name.as_bytes()).unwrap(),
            HeaderValue::from_str(value).unwrap(),
        );
    }
    RequestHead {
        method: "GET".into(),
        http11: true,
        authority: uri.authority().map(|a| a.to_string()),
        path: uri.path().to_string(),
        path_and_query: uri.path_and_query().map(|p| p.to_string()),
        headers,
    }
}

fn forwarded(trusted_peer: bool) -> Option<Forwarded> {
    Some(Forwarded {
        peer_ip: parse_ip("203.0.113.7").unwrap(),
        trusted_peer,
    })
}

#[test]
fn authority_from_host_or_uri() {
    let req = head("/", &[("host", "Web.Test:8080")]);
    assert_eq!(request_authority(&req).unwrap(), "Web.Test:8080");
    assert_eq!(request_hostname("Web.Test:8080").unwrap(), "web.test");

    let req = head("http://a.test/x", &[("host", "a.test")]);
    assert_eq!(request_authority(&req).unwrap(), "a.test");
}

#[test]
fn rejects_ambiguous_authority() {
    let req = head("/", &[("host", "a.test"), ("host", "b.test")]);
    assert_eq!(request_authority(&req).unwrap_err().status, 400);

    let req = head("http://a.test/", &[("host", "b.test")]);
    assert!(request_authority(&req).is_err());

    let req = head("/", &[]);
    assert!(request_authority(&req).is_err());

    assert!(request_hostname("user@a.test").is_err());
    assert!(request_hostname("bad_host").is_err());
}

#[test]
fn strips_hop_by_hop_and_listed_headers() {
    let mut headers = HeaderMap::new();
    headers.insert(
        "connection",
        HeaderValue::from_static("keep-alive, x-secret"),
    );
    headers.insert("x-secret", HeaderValue::from_static("1"));
    headers.insert("transfer-encoding", HeaderValue::from_static("chunked"));
    headers.insert("x-app", HeaderValue::from_static("kept"));
    strip_hop_by_hop(&mut headers);
    assert_eq!(headers.len(), 1);
    assert!(headers.contains_key("x-app"));
}

#[test]
fn backend_request_is_origin_form_http11_with_forwarding_headers() {
    let mut req = head(
        "https://a.test/path?q=1",
        &[
            ("x-forwarded-for", "198.51.100.1"),
            ("x-forwarded-proto", "http"),
            ("te", "trailers"),
        ],
    );
    req.method = "POST".into();
    req.http11 = false;
    let backend =
        build_backend_request(req, "a.test", Scheme::Https, None, forwarded(false)).unwrap();
    assert_eq!(backend.method, "POST");
    assert_eq!(backend.target, "/path?q=1");
    assert_eq!(backend.headers["host"], "a.test");
    assert_eq!(backend.headers["x-forwarded-for"], "203.0.113.7");
    assert_eq!(backend.headers["x-forwarded-proto"], "https");
    assert!(!backend.headers.contains_key("te"));
}

#[test]
fn cookie_fields_of_http2_requests_are_joined() {
    let mut req = head(
        "https://a.test/",
        &[
            ("cookie", "session=abc"),
            ("cookie", "csrf=def"),
            ("cookie", "theme=dark"),
        ],
    );
    req.http11 = false;
    let backend = build_backend_request(req, "a.test", Scheme::Https, None, None).unwrap();
    let cookies: Vec<_> = backend.headers.get_all("cookie").iter().collect();
    assert_eq!(cookies, ["session=abc; csrf=def; theme=dark"]);

    let req = head("/", &[("cookie", "session=abc; csrf=def")]);
    let backend = build_backend_request(req, "a.test", Scheme::Http, None, None).unwrap();
    assert_eq!(backend.headers["cookie"], "session=abc; csrf=def");
}

#[test]
fn trusted_proxy_chain_is_extended() {
    let req = head(
        "/",
        &[
            ("x-forwarded-for", "192.0.2.1"),
            ("x-forwarded-for", "10.0.0.5"),
            ("x-forwarded-proto", "https"),
        ],
    );
    let backend =
        build_backend_request(req, "a.test", Scheme::Http, None, forwarded(true)).unwrap();
    assert_eq!(
        backend.headers["x-forwarded-for"],
        "192.0.2.1, 10.0.0.5, 203.0.113.7"
    );
    assert_eq!(backend.headers["x-forwarded-proto"], "https");

    let req = head("/", &[]);
    let backend = build_backend_request(req, "a.test", Scheme::Http, None, None).unwrap();
    assert!(!backend.headers.contains_key("x-forwarded-for"));
}

#[test]
fn policy_decisions_map_to_statuses() {
    let limited = Rejection::from_decision(Decision::RateLimited {
        retry_after_secs: 7,
    });
    assert_eq!(limited.status, 429);
    let response = limited.into_response();
    assert_eq!(response.retry_after, Some(7));
    assert_eq!(response.body, "429 Too Many Requests\n");
    assert_eq!(Rejection::from_decision(Decision::Deny).status, 403);
    assert_eq!(Rejection::from_decision(Decision::Unavailable).status, 503);
}

#[test]
fn upgrade_detection_requires_connection_token() {
    let req = head(
        "/ws",
        &[("connection", "keep-alive, Upgrade"), ("upgrade", "websocket")],
    );
    assert_eq!(upgrade_protocol(&req).unwrap(), b"websocket");

    let req = head("/ws", &[("upgrade", "websocket")]);
    assert!(upgrade_protocol(&req).is_none());

    let upgrade = upgrade_protocol(&head(
        "/ws",
        &[("connection", "upgrade"), ("upgrade", "websocket")],
    ));
    let req = head("/ws", &[]);
    let backend = build_backend_request(req, "a.test", Scheme::Http, upgrade, None).unwrap();
    assert_eq!(backend.headers["connection"], "upgrade");
    assert_eq!(backend.headers["upgrade"], "websocket");
}

#[test]
fn targets_that_are_no_uri_are_rejected() {
    let rejected = backend_request(head("/", &[]), None, "a.test", Scheme::Http, None, None);
    assert_eq!(rejected.unwrap_err().status, 400);
}

fn info(scheme: Scheme, sni: Option<&str>) -> ConnInfo {
    ConnInfo {
        client_addr: parse_socket("203.0.113.7:1234").unwrap(),
        scheme,
        sni: sni.map(str::to_string),
    }
}

#[test]
fn requests_are_routed_judged_opened_and_sent() {
    let req = head("/x", &[("host", "Web.test")]);
    let (mut run, first) = ProxyRun::start(req, &info(Scheme::Http, None), None, true);
    assert!(matches!(first, ProxyAction::Route { hostname } if hostname == "web.test"));
    let next = run.step(ProxyEvent::Routed(Some("tenant-1".into())));
    assert!(matches!(next, ProxyAction::Evaluate { tenant_id } if tenant_id == "tenant-1"));
    let judged = ProxyEvent::Judged {
        rejects: false,
        decision: Decision::Allow,
        trusted_peer: false,
    };
    match run.step(judged) {
        ProxyAction::Open(backend) => {
            assert_eq!(backend.target, "/x");
            assert_eq!(backend.headers["x-forwarded-for"], "203.0.113.7");
        }
        other => panic!("{other:?}"),
    }
    assert!(matches!(run.step(ProxyEvent::Opened(Ok(()))), ProxyAction::Handshake));
    assert!(matches!(run.step(ProxyEvent::Shaken(true)), ProxyAction::Send));
    assert!(matches!(
        run.step(ProxyEvent::Sent(SendOutcome::Response(200))),
        ProxyAction::Respond
    ));
}

#[test]
fn failures_on_the_way_become_statuses() {
    let start = || {
        let req = head("/", &[("host", "web.test")]);
        ProxyRun::start(req, &info(Scheme::Http, None), None, true).0
    };
    let allowed = || ProxyEvent::Judged {
        rejects: false,
        decision: Decision::Allow,
        trusted_peer: false,
    };
    let status = |action: ProxyAction| match action {
        ProxyAction::Reject(rejection) => rejection.status,
        other => panic!("{other:?}"),
    };
    assert_eq!(status(start().step(ProxyEvent::Routed(None))), 502);
    let mut run = start();
    run.step(ProxyEvent::Routed(Some("t".into())));
    let denied = ProxyEvent::Judged {
        rejects: true,
        decision: Decision::Deny,
        trusted_peer: false,
    };
    assert_eq!(status(run.step(denied)), 403);
    let mut run = start();
    run.step(ProxyEvent::Routed(Some("t".into())));
    run.step(allowed());
    assert_eq!(
        status(run.step(ProxyEvent::Opened(Err(OpenFailure::TimedOut)))),
        504
    );
    let mut run = start();
    run.step(ProxyEvent::Routed(Some("t".into())));
    run.step(allowed());
    run.step(ProxyEvent::Opened(Ok(())));
    run.step(ProxyEvent::Shaken(true));
    assert_eq!(status(run.step(ProxyEvent::Sent(SendOutcome::Failed))), 502);
    // The name of the TLS handshake and of the request must agree.
    let req = head("/", &[("host", "other.test")]);
    let (_, action) = ProxyRun::start(req, &info(Scheme::Https, Some("web.test")), None, true);
    assert_eq!(status(action), 421);
}

#[test]
fn challenges_are_answered_for_managed_names() {
    let mut challenges =
        Http01Challenges::new(TextSet::from_vec(vec!["a.test".to_string()]), 1);
    challenges.insert("a.test", "tok", "tok.thumb");
    let req = head("/.well-known/acme-challenge/tok", &[("host", "a.test")]);
    let permit = match challenge_response(&challenges, "a.test", &req) {
        ChallengeReply::Response(body, permit) => {
            assert_eq!(body, "tok.thumb");
            permit
        }
        other => panic!("{other:?}"),
    };
    // The response being sent takes the whole budget.
    assert!(matches!(
        challenge_response(&challenges, "a.test", &req),
        ChallengeReply::Rejected(r) if r.status == 503
    ));
    drop(permit);
    let req = head("/.well-known/acme-challenge/other", &[("host", "a.test")]);
    assert!(matches!(
        challenge_response(&challenges, "a.test", &req),
        ChallengeReply::Rejected(r) if r.status == 404
    ));
    let mut req = head("/.well-known/acme-challenge/tok", &[("host", "a.test")]);
    req.method = "POST".to_string();
    assert!(matches!(
        permitted_response(&challenges, "a.test", &req, challenges.try_acquire()),
        ChallengeReply::Rejected(r) if r.status == 405
    ));
    assert!(matches!(
        permitted_response(&challenges, "a.test", &req, None),
        ChallengeReply::Rejected(r) if r.status == 503
    ));
    // A rejection keeps no permit.
    assert!(challenges.try_acquire().is_some());
    let req = head("/.well-known/acme-challenge/tok", &[("host", "a.test")]);
    let (_, action) =
        ProxyRun::start(req, &info(Scheme::Http, None), Some(&challenges), true);
    assert!(matches!(action, ProxyAction::AnswerChallenge { hostname } if hostname == "a.test"));
}

#[test]
fn header_fields_are_read() {
    let req = head("/", &[("connection", "a, B"), ("connection", "c,")]);
    assert_eq!(header_tokens(&req.headers, "connection"), ["a", "B", "c"]);
    assert!(valid_field_name("x-y") && !valid_field_name("x y") && !valid_field_name(""));
    assert!(valid_field_value(b"a\tb") && !valid_field_value(b"a\nb"));
    assert_eq!(field_text(&b"abc".to_vec()).as_deref(), Some("abc"));
    assert_eq!(field_text(&b"\xc3\xa4".to_vec()), None);
}

#[test]
fn requests_with_many_fields_are_passed_on() {
    let judge = |count: usize| {
        let mut req = head("/", &[("host", "web.test")]);
        let mut i = 0;
        while req.headers.keys_len() < count {
            i += 1;
            let name = HeaderName::from_bytes(format!("x-field-{i}").as_bytes()).unwrap();
            let _ = req.headers.try_insert(name, HeaderValue::from_static("v"));
        }
        let (mut run, action) = ProxyRun::start(req, &info(Scheme::Http, None), None, true);
        assert!(matches!(action, ProxyAction::Route { hostname } if hostname == "web.test"));
        run.step(ProxyEvent::Routed(Some("tenant-1".into())));
        run.step(ProxyEvent::Judged {
            rejects: false,
            decision: Decision::Allow,
            trusted_peer: false,
        })
    };
    // A header map takes no more names than these.
    assert!(matches!(judge(24_576), ProxyAction::Reject(r) if r.status == 431));
    for count in [SURE_FIELD_NAMES, 10_000] {
        match judge(count) {
            ProxyAction::Open(backend) => {
                assert_eq!(backend.headers["x-field-1"], "v");
                assert_eq!(backend.headers["x-forwarded-for"], "203.0.113.7");
            }
            other => panic!("{other:?}"),
        }
    }
}
