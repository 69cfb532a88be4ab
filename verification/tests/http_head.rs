use janus::error::Error;
use janus::http::{
    add_forwarding_headers, content_length, forward_request_head, head_line_step,
    is_request_retryable, parse_header_line, parse_request_line, parse_response_line,
    reject_unsupported, request_head_start, response_head_start, serialize_request_head,
    serialize_response_head, strip_hop_by_hop, validate_target, HttpHeader, HttpRequestHead,
    HttpResponseHead,
};
use janus::proxy::RetryConfig;

fn header(name: &str, value: &str) -> HttpHeader {
    HttpHeader { name: name.into(), value: value.into() }
}

fn head_with(headers: Vec<HttpHeader>) -> HttpRequestHead {
    HttpRequestHead {
        method: "GET".into(),
        target: "/".into(),
        version: "HTTP/1.1".into(),
        headers,
    }
}

fn header_names(head: &HttpRequestHead) -> Vec<String> {
    head.headers.iter().map(|h| h.name.clone()).collect()
}

fn header_value<'a>(head: &'a HttpRequestHead, name: &str) -> Option<&'a str> {
    head.headers
        .iter()
        .find(|h| h.name.eq_ignore_ascii_case(name))
        .map(|h| h.value.as_str())
}

/// The address part of an `ip:port` text.
fn client_ip(addr: &str) -> &str {
    addr.rsplit_once(':').unwrap().0
}

fn protocol_message(e: Error) -> String {
    match e {
        Error::Protocol(m) => m,
        other => panic!("expected a protocol error, got {other:?}"),
    }
}

#[test]
fn parses_a_valid_request_line() {
    let head = parse_request_line("GET /index.html HTTP/1.1\r\n").unwrap();
    assert_eq!(head.method, "GET");
    assert_eq!(head.target, "/index.html");
    assert_eq!(head.version, "HTTP/1.1");
}

#[test]
fn rejects_too_few_tokens() {
    assert!(parse_request_line("GET /\r\n").is_err());
}

#[test]
fn rejects_target_without_leading_slash() {
    assert!(parse_request_line("GET index.html HTTP/1.1\r\n").is_err());
}

#[test]
fn rejects_absolute_form_target() {
    assert!(parse_request_line("GET http://x/ HTTP/1.1\r\n").is_err());
}

#[test]
fn request_line_errors_carry_their_message() {
    let e = parse_request_line("GET / HTTP/1.1 extra").unwrap_err();
    assert_eq!(protocol_message(e), "invalid request line");
    let e = parse_request_line("GET x HTTP/1.1").unwrap_err();
    assert_eq!(protocol_message(e), "invalid request target");
    let e = parse_request_line("").unwrap_err();
    assert_eq!(protocol_message(e), "invalid request line");
}

#[test]
fn request_line_strips_every_trailing_crlf_only() {
    let head = parse_request_line("GET / HTTP/1.1\r\n\r\n").unwrap();
    assert_eq!(head.version, "HTTP/1.1");
    // A lone '\n' is not a CRLF pair: it stays in the version.
    let head = parse_request_line("GET / HTTP/1.1\n").unwrap();
    assert_eq!(head.version, "HTTP/1.1\n");
    // Two spaces make an empty piece, hence four pieces.
    assert!(parse_request_line("GET  / HTTP/1.1").is_err());
}

#[test]
fn validates_targets() {
    assert!(validate_target("/").is_ok());
    assert!(validate_target("/a/b?c").is_ok());
    assert_eq!(protocol_message(validate_target("").unwrap_err()), "invalid request target");
    assert!(validate_target("*").is_err());
}

#[test]
fn content_length_absent_is_none() {
    let head = HttpRequestHead {
        method: "GET".into(),
        target: "/".into(),
        version: "HTTP/1.1".into(),
        headers: vec![],
    };
    assert_eq!(content_length(&head.headers).unwrap(), None);
}

#[test]
fn content_length_parsed_case_insensitive() {
    let head = HttpRequestHead {
        method: "POST".into(),
        target: "/".into(),
        version: "HTTP/1.1".into(),
        headers: vec![HttpHeader { name: "content-length".into(), value: "42".into() }],
    };
    assert_eq!(content_length(&head.headers).unwrap(), Some(42));
}

#[test]
fn content_length_invalid_is_err() {
    let head = HttpRequestHead {
        method: "POST".into(),
        target: "/".into(),
        version: "HTTP/1.1".into(),
        headers: vec![HttpHeader { name: "Content-Length".into(), value: "abc".into() }],
    };
    assert!(content_length(&head.headers).is_err());
}

#[test]
fn content_length_edge_cases() {
    let cl = |v: &str| content_length(&[header("Content-Length", v)]);
    assert_eq!(cl("  7 \t").unwrap(), Some(7));
    assert_eq!(cl("+5").unwrap(), Some(5));
    assert_eq!(cl("007").unwrap(), Some(7));
    assert_eq!(cl("18446744073709551615").unwrap(), Some(u64::MAX));
    assert!(cl("18446744073709551616").is_err());
    assert!(cl("").is_err());
    assert!(cl("+").is_err());
    assert!(cl("-1").is_err());
    assert_eq!(protocol_message(cl("x").unwrap_err()), "invalid content-length");
    // The first Content-Length header decides.
    let hs = [header("content-length", "3"), header("Content-Length", "bad")];
    assert_eq!(content_length(&hs).unwrap(), Some(3));
}

#[test]
fn accepts_plain_request() {
    let head = head_with(vec![HttpHeader { name: "Host".into(), value: "x".into() }]);
    assert!(reject_unsupported(&head).is_ok());
}

#[test]
fn rejects_transfer_encoding() {
    let head = head_with(vec![HttpHeader {
        name: "Transfer-Encoding".into(),
        value: "chunked".into(),
    }]);
    assert!(reject_unsupported(&head).is_err());
}

#[test]
fn rejects_upgrade() {
    let head = head_with(vec![HttpHeader { name: "Upgrade".into(), value: "websocket".into() }]);
    assert!(reject_unsupported(&head).is_err());
}

#[test]
fn rejects_transfer_encoding_case_insensitive() {
    let head = head_with(vec![HttpHeader {
        name: "transfer-encoding".into(),
        value: "chunked".into(),
    }]);
    assert!(reject_unsupported(&head).is_err());
}

#[test]
fn transfer_encoding_is_reported_before_upgrade() {
    let head = head_with(vec![header("Upgrade", "h2c"), header("TRANSFER-ENCODING", "gzip")]);
    assert_eq!(
        protocol_message(reject_unsupported(&head).unwrap_err()),
        "transfer-encoding not supported"
    );
    let head = head_with(vec![header("upgrade", "h2c")]);
    assert_eq!(protocol_message(reject_unsupported(&head).unwrap_err()), "upgrade not supported");
}

#[test]
fn strips_hop_by_hop_headers() {
    let mut head = head_with(vec![
        HttpHeader { name: "Host".into(), value: "x".into() },
        HttpHeader { name: "Connection".into(), value: "keep-alive".into() },
        HttpHeader { name: "Proxy-Connection".into(), value: "keep-alive".into() },
        HttpHeader { name: "Keep-Alive".into(), value: "timeout=5".into() },
        HttpHeader { name: "Transfer-Encoding".into(), value: "chunked".into() },
    ]);
    strip_hop_by_hop(&mut head);
    assert_eq!(header_names(&head), vec!["Host"]);
}

#[test]
fn preserves_ordinary_headers() {
    let mut head = head_with(vec![
        HttpHeader { name: "Host".into(), value: "x".into() },
        HttpHeader { name: "User-Agent".into(), value: "curl".into() },
    ]);
    strip_hop_by_hop(&mut head);
    assert_eq!(header_names(&head), vec!["Host", "User-Agent"]);
}

#[test]
fn strips_hop_by_hop_case_insensitive() {
    let mut head = head_with(vec![
        HttpHeader { name: "Host".into(), value: "x".into() },
        HttpHeader { name: "CONNECTION".into(), value: "close".into() },
    ]);
    strip_hop_by_hop(&mut head);
    assert_eq!(header_names(&head), vec!["Host"]);
}

#[test]
fn stripping_twice_is_stripping_once() {
    let mut head = head_with(vec![
        header("A", "1"),
        header("keep-alive", "x"),
        header("B", "2"),
        header("Connection", "close"),
        header("C", "3"),
    ]);
    strip_hop_by_hop(&mut head);
    let once = header_names(&head);
    strip_hop_by_hop(&mut head);
    assert_eq!(header_names(&head), once);
    assert_eq!(once, vec!["A", "B", "C"]);
}

#[test]
fn adds_forwarding_headers_with_host() {
    let mut head = head_with(vec![HttpHeader { name: "Host".into(), value: "example.com".into() }]);
    let client = "1.2.3.4:5678";
    add_forwarding_headers(&mut head, client_ip(client));

    assert_eq!(header_value(&head, "X-Forwarded-For"), Some("1.2.3.4"));
    assert_eq!(header_value(&head, "X-Forwarded-Host"), Some("example.com"));
    assert_eq!(header_value(&head, "X-Forwarded-Proto"), Some("http"));
}

#[test]
fn adds_forwarding_headers_without_host() {
    let mut head = head_with(vec![]);
    let client = "1.2.3.4:5678";
    add_forwarding_headers(&mut head, client_ip(client));

    assert_eq!(header_value(&head, "X-Forwarded-For"), Some("1.2.3.4"));
    assert_eq!(header_value(&head, "X-Forwarded-Proto"), Some("http"));
    assert_eq!(header_value(&head, "X-Forwarded-Host"), None);
}

#[test]
fn forwarding_headers_come_in_order_after_the_others() {
    let mut head = head_with(vec![header("host", "a"), header("Host", "b")]);
    add_forwarding_headers(&mut head, "::1");
    assert_eq!(
        header_names(&head),
        vec!["host", "Host", "X-Forwarded-For", "X-Forwarded-Host", "X-Forwarded-Proto"]
    );
    assert_eq!(head.headers[3].value, "a");
    assert_eq!(head.headers[2].value, "::1");
}

#[test]
fn serializes_request_head() {
    let head = head_with(vec![HttpHeader { name: "Host".into(), value: "x".into() }]);
    assert_eq!(serialize_request_head(&head), "GET / HTTP/1.1\r\nHost: x\r\n\r\n");
}

#[test]
fn serializes_response_head() {
    let head = HttpResponseHead {
        version: "HTTP/1.1".into(),
        status: 404,
        reason: "Not Found".into(),
        headers: vec![header("Content-Length", "0"), header("Server", "janus")],
    };
    assert_eq!(
        serialize_response_head(&head),
        "HTTP/1.1 404 Not Found\r\nContent-Length: 0\r\nServer: janus\r\n\r\n"
    );
    let head = HttpResponseHead {
        version: "HTTP/1.0".into(),
        status: 7,
        reason: String::new(),
        headers: vec![],
    };
    assert_eq!(serialize_response_head(&head), "HTTP/1.0 7 \r\n\r\n");
}

#[test]
fn parses_a_valid_response_line() {
    let head = parse_response_line("HTTP/1.1 200 OK").unwrap();
    assert_eq!(head.version, "HTTP/1.1");
    assert_eq!(head.status, 200);
    assert_eq!(head.reason, "OK");
}

#[test]
fn parses_a_response_line_with_empty_reason() {
    let head = parse_response_line("HTTP/1.1 204 ").unwrap();
    assert_eq!(head.status, 204);
    assert_eq!(head.reason, "");
}

#[test]
fn rejects_a_response_line_with_invalid_status_code() {
    assert!(parse_response_line("HTTP/1.1 abc OK").is_err());
}

#[test]
fn response_line_edge_cases() {
    let head = parse_response_line("HTTP/1.1 500 Internal Server Error\r\n").unwrap();
    assert_eq!(head.status, 500);
    assert_eq!(head.reason, "Internal Server Error");
    let head = parse_response_line("HTTP/1.1 301").unwrap();
    assert_eq!(head.status, 301);
    assert_eq!(head.reason, "");
    assert_eq!(
        protocol_message(parse_response_line("HTTP/1.1").unwrap_err()),
        "invalid status line"
    );
    assert_eq!(
        protocol_message(parse_response_line("HTTP/1.1 70000 Big").unwrap_err()),
        "invalid status code"
    );
    assert_eq!(parse_response_line("HTTP/1.1 65535 Max").unwrap().status, 65535);
}

#[test]
fn response_head_round_trips_through_its_text() {
    let head = HttpResponseHead {
        version: "HTTP/1.1".into(),
        status: 201,
        reason: "Created".into(),
        headers: vec![],
    };
    let text = serialize_response_head(&head);
    let first_line = text.split("\r\n").next().unwrap();
    let back = parse_response_line(first_line).unwrap();
    assert_eq!(back.version, "HTTP/1.1");
    assert_eq!(back.status, 201);
    assert_eq!(back.reason, "Created");
}

#[test]
fn request_line_round_trips_through_its_text() {
    let head = head_with(vec![header("Host", "x")]);
    let text = serialize_request_head(&head);
    let back = parse_request_line(&text[..text.find("\r\n").unwrap() + 2]).unwrap();
    assert_eq!((back.method.as_str(), back.target.as_str(), back.version.as_str()), ("GET", "/", "HTTP/1.1"));
}

#[test]
fn parses_header_lines() {
    let h = parse_header_line("  Host :  example.com:8080  ").unwrap();
    assert_eq!(h.name, "Host");
    assert_eq!(h.value, "example.com:8080");
    let h = parse_header_line("X-Empty:").unwrap();
    assert_eq!(h.name, "X-Empty");
    assert_eq!(h.value, "");
    assert_eq!(protocol_message(parse_header_line("no colon here").unwrap_err()), "malformed header");
}

#[test]
fn reads_request_line_and_headers_step_by_step() {
    let mut head = request_head_start("GET / HTTP/1.1\r\n").unwrap();
    let mut lines = ["Host: localhost:8080\r\n", "\r\n"].iter();
    loop {
        let line = lines.next().unwrap();
        match head_line_step(line, line.len()).unwrap() {
            Some(h) => head.headers.push(h),
            None => break,
        }
    }
    assert_eq!(head.method, "GET");
    assert_eq!(head.headers.len(), 1);
    assert_eq!(head.headers[0].name, "Host");
    assert_eq!(head.headers[0].value, "localhost:8080");
}

#[test]
fn reads_a_response_head_step_by_step() {
    let mut head = response_head_start("HTTP/1.1 200 OK\r\n").unwrap();
    for line in ["Content-Length: 5\r\n", "Server: janus\r\n"] {
        head.headers.push(head_line_step(line, line.len()).unwrap().unwrap());
    }
    assert!(head_line_step("\r\n", 2).unwrap().is_none());
    assert_eq!(head.status, 200);
    assert_eq!(head.headers.len(), 2);
}

#[test]
fn head_line_step_errors() {
    assert_eq!(
        protocol_message(head_line_step("", 0).unwrap_err()),
        "unexpected eof in headers"
    );
    assert_eq!(protocol_message(head_line_step("garbage\r\n", 9).unwrap_err()), "malformed header");
    assert!(request_head_start("").is_err());
    assert!(response_head_start("\r\n").is_err());
}

#[test]
fn forwards_a_request_head() {
    let head = HttpRequestHead {
        method: "POST".into(),
        target: "/submit".into(),
        version: "HTTP/1.1".into(),
        headers: vec![
            header("Host", "example.com"),
            header("Connection", "keep-alive"),
            header("Content-Length", "11"),
        ],
    };
    let (text, length) = forward_request_head(head, "127.0.0.1");
    assert_eq!(
        text,
        "POST /submit HTTP/1.1\r\nHost: example.com\r\nContent-Length: 11\r\n\
         X-Forwarded-For: 127.0.0.1\r\nX-Forwarded-Host: example.com\r\n\
         X-Forwarded-Proto: http\r\n\r\n"
    );
    assert_eq!(length.unwrap(), Some(11));
}

#[test]
fn retryable_requests() {
    let retry = RetryConfig { retryable_methods: vec!["get".into(), "HEAD".into()] };
    assert!(is_request_retryable(&head_with(vec![]), &retry));
    assert!(is_request_retryable(&head_with(vec![header("Content-Length", "0")]), &retry));
    assert!(!is_request_retryable(&head_with(vec![header("Content-Length", "3")]), &retry));
    assert!(!is_request_retryable(&head_with(vec![header("Content-Length", "x")]), &retry));
    let mut post = head_with(vec![]);
    post.method = "POST".into();
    assert!(!is_request_retryable(&post, &retry));
}
