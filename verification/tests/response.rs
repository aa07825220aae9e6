use clickhouse::error::Error;
use clickhouse::response::{
    cap_body, collect_bad_response, collect_bytes, collect_response, extract_exception,
    extract_exception_old, finish,
    header_text, parse_msg_len, parse_server_exception, plain_chunk, reason, with_phrase, Chunks,
    KeptBody, Polled, ResponseHead, ResponseHeaders, BAD_RESPONSE_BODY_CAP,
};

#[test]
fn it_extracts_exception_old() {
    let cases: [(&str, u32, &str, &str); 2] = [
        (
            "Code: 159. DB::Exception: Timeout exceeded: elapsed 1.2 seconds, maximum: 0.1. (TIMEOUT_EXCEEDED) (version 24.10.1.2812 (official build))",
            159,
            "TIMEOUT_EXCEEDED",
            "Timeout exceeded: elapsed 1.2 seconds, maximum: 0.1",
        ),
        (
            "Code: 210. DB::NetException: I/O error: Broken pipe, while writing to socket (127.0.0.1:9000 -> 127.0.0.1:54646). (NETWORK_ERROR) (version 23.8.8.20 (official build))",
            210,
            "NETWORK_ERROR",
            "I/O error: Broken pipe, while writing to socket (127.0.0.1:9000 -> 127.0.0.1:54646)",
        ),
    ];

    for (raw, expect_code, expect_name, expect_msg) in cases {
        let chunk = format!("{raw}\n");
        let err = extract_exception(chunk.as_bytes(), None).expect("failed to extract exception");
        match err {
            Error::ServerException { code, name, message, stack_trace } => {
                assert_eq!(code, expect_code);
                assert_eq!(name.as_deref(), Some(expect_name));
                assert_eq!(message, expect_msg);
                assert!(stack_trace.is_none(), "no Stack trace: section in input");
            }
            other => panic!("expected ServerException, got: {other:?}"),
        }
    }
}

#[test]
fn it_extracts_exception_new() {
    let tag = b"rnywyenlaeqynhmu";
    let chunk = b"\r\n__exception__\r\nrnywyenlaeqynhmu\r\nCode: 159. DB::Exception: Timeout exceeded: elapsed 126.147987 ms, maximum: 100 ms. (TIMEOUT_EXCEEDED) (version 25.12.1.649 (official build))\n142 rnywyenlaeqynhmu\r\n__exception__\r\n";

    let err = extract_exception(chunk, Some(tag)).expect("failed to extract exception");
    match err {
        Error::ServerException { code, name, message, stack_trace } => {
            assert_eq!(code, 159);
            assert_eq!(name.as_deref(), Some("TIMEOUT_EXCEEDED"));
            assert_eq!(message, "Timeout exceeded: elapsed 126.147987 ms, maximum: 100 ms");
            assert!(stack_trace.is_none());
        }
        other => panic!("expected ServerException, got: {other:?}"),
    }
}

#[test]
fn parse_server_exception_constraint_violation() {
    let body = "Code: 469. DB::Exception: Constraint `x_lt_10` for table benchmark.t is violated at row 5000. Expression: (x < 10). Column values: x = 100: While executing WaitForAsyncInsert. (VIOLATED_CONSTRAINT) (version 26.2.4.23 (official build))";
    let err = parse_server_exception(body, None).expect("should parse");
    match err {
        Error::ServerException { code, name, message, stack_trace } => {
            assert_eq!(code, 469);
            assert_eq!(name.as_deref(), Some("VIOLATED_CONSTRAINT"));
            assert!(message.contains("Constraint `x_lt_10`"));
            assert!(message.contains("violated at row 5000"));
            assert!(stack_trace.is_none());
        }
        other => panic!("expected ServerException, got {other:?}"),
    }
}

#[test]
fn parse_server_exception_with_stack_trace() {
    let body = "Code: 36. DB::Exception: Bad arguments. Stack trace:\n0. ./Common/Exception.cpp:99\n1. ./Functions/foo.cpp:42\n (BAD_ARGUMENTS) (version 26.2.4.23 (official build))";
    let err = parse_server_exception(body, None).expect("should parse");
    match err {
        Error::ServerException { code, name, stack_trace, .. } => {
            assert_eq!(code, 36);
            assert_eq!(name.as_deref(), Some("BAD_ARGUMENTS"));
            let st = stack_trace.expect("stack trace present");
            assert!(st.contains("Exception.cpp:99"));
            assert!(st.contains("foo.cpp:42"));
        }
        other => panic!("expected ServerException, got {other:?}"),
    }
}

#[test]
fn parse_server_exception_code_from_header_preferred() {
    let body = "DB::Exception: Something happened (UNKNOWN_TABLE) (version 26.2.4.23 (official build))";
    let err = parse_server_exception(body, Some("60")).expect("should parse");
    match err {
        Error::ServerException { code, name, .. } => {
            assert_eq!(code, 60);
            assert_eq!(name.as_deref(), Some("UNKNOWN_TABLE"));
        }
        other => panic!("expected ServerException, got {other:?}"),
    }
}

#[test]
fn parse_server_exception_unparseable_returns_none() {
    assert!(parse_server_exception("404 Not Found", None).is_none());
    assert!(parse_server_exception("", None).is_none());
    assert!(
        parse_server_exception("DB::Exception: oops", None).is_none(),
        "no code in header or body should yield None"
    );
}

#[test]
fn parse_server_exception_without_name_tag() {
    let body = "Code: 999. DB::Exception: Generic problem (version 26.2.4.23 (official build))";
    let err = parse_server_exception(body, None).expect("should parse");
    match err {
        Error::ServerException { code, name, message, .. } => {
            assert_eq!(code, 999);
            assert!(name.is_none(), "no (NAME) tag in input");
            assert_eq!(message, "Generic problem");
        }
        other => panic!("expected ServerException, got {other:?}"),
    }
}

fn code_of(e: Option<Error>) -> Option<u32> {
    match e {
        Some(Error::ServerException { code, .. }) => Some(code),
        _ => None,
    }
}

#[test]
fn headers_give_their_code_with_or_without_its_prefix() {
    assert_eq!(code_of(parse_server_exception("x", Some("Code: 47"))), Some(47));
    assert_eq!(code_of(parse_server_exception("x", Some(" Code: 47 "))), Some(47));
    assert_eq!(code_of(parse_server_exception("x", Some(" 47 "))), None);
    assert_eq!(code_of(parse_server_exception("Code: 1. x", Some("junk"))), Some(1));
    assert_eq!(code_of(parse_server_exception("Code: 1. x", Some("2"))), Some(2));
    assert_eq!(code_of(parse_server_exception("Code: 4294967296. x", None)), None);
    assert_eq!(code_of(parse_server_exception("Code: -1. x", None)), None);
}

#[test]
fn messages_that_are_empty_give_no_exception() {
    assert!(parse_server_exception("Code: 5. DB::Exception: (version 1)", None).is_none());
}

#[test]
fn ordinary_chunks_hold_no_exception() {
    assert!(extract_exception(b"", None).is_none());
    assert!(extract_exception(b"some rows", Some(b"tag")).is_none());
    assert!(extract_exception(b"f(g(x))\n", None).is_none());
    assert!(extract_exception(b"Code: 1 (a (b))\n", None).is_none());
    assert!(extract_exception(b"__exception__\r\n", Some(b"tag")).is_none());
}

#[test]
fn the_last_code_counts_in_the_older_form() {
    let chunk = b"Code: 1. data\x00Code: 2. DB::Exception: late (version 1 (x))\n";
    match extract_exception(chunk, None) {
        Some(Error::ServerException { code, message, .. }) => {
            assert_eq!((code, message.as_str()), (2, "late"));
        }
        other => panic!("expected ServerException, got {other:?}"),
    }
}

#[test]
fn bytes_that_are_no_text_are_replaced() {
    let chunk = b"Code: x DB::Exception: bad \xff byte (version 1 (y))\n";
    match extract_exception(chunk, None) {
        Some(Error::BadResponse(s)) => {
            assert_eq!(s, "Code: x DB::Exception: bad \u{fffd} byte (version 1 (y))")
        }
        other => panic!("expected BadResponse, got {other:?}"),
    }
}

#[test]
fn lengths_that_cannot_be_read_are_reported() {
    let chunk = b"msg\nxx tag\r\n__exception__\r\n";
    match extract_exception(chunk, Some(b"tag")) {
        Some(Error::Other(s)) => assert_eq!(
            s,
            "found exception tag in response but failed to parse message length \"xx\": invalid digit found in string"
        ),
        other => panic!("expected Other, got {other:?}"),
    }
    let chunk = b"msg\n99 tag\r\n__exception__\r\n";
    match extract_exception(chunk, Some(b"tag")) {
        Some(Error::Other(s)) => assert_eq!(
            s,
            "found exception tag in response but message length was invalid: 99 (chunk len: 27)"
        ),
        other => panic!("expected Other, got {other:?}"),
    }
    match parse_msg_len(&[0xff]) {
        Err(Error::Other(s)) => assert_eq!(
            s,
            "found exception tag in response but failed to parse message length: invalid utf-8 sequence of 1 bytes from index 0"
        ),
        other => panic!("expected Other, got {other:?}"),
    }
    assert_eq!(parse_msg_len(b"142").unwrap(), 142);
}

#[test]
fn reasons_name_the_status() {
    assert_eq!(reason(404, None), "404 Not Found");
    assert_eq!(reason(599, None), "599 <unknown>");
    assert_eq!(reason(500, Some("Code: 60".to_string())), "Code: 60");
    assert_eq!(with_phrase(200, Some("OK")), "200 OK");
}

fn kept(bytes: &[u8]) -> Option<KeptBody> {
    cap_body(Some(bytes.to_vec()))
}

#[test]
fn failed_requests_are_reported() {
    let gone = collect_bad_response(503, None, None, None);
    assert!(matches!(gone, Error::BadResponse(s) if s == "503 Service Unavailable"));
    let told = collect_bad_response(
        404,
        Some("Code: 60".to_string()),
        kept(b"DB::Exception: gone (UNKNOWN_TABLE)\n"),
        None,
    );
    match told {
        Error::ServerException { code, name, message, .. } => {
            assert_eq!(code, 60);
            assert_eq!(name.as_deref(), Some("UNKNOWN_TABLE"));
            assert_eq!(message, "gone");
        }
        other => panic!("expected ServerException, got {other:?}"),
    }
    let raw = collect_bad_response(502, None, kept(b" proxy says no \n"), None);
    assert!(matches!(raw, Error::BadResponse(s) if s == "proxy says no"));
    let unpacked = collect_bad_response(
        502,
        None,
        kept(&[1, 2, 3]),
        Some(b"Code: 1. DB::Exception: x".to_vec()),
    );
    assert_eq!(code_of(Some(unpacked)), Some(1));
    let unreadable = collect_bad_response(502, None, kept(&[0xff]), None);
    assert!(matches!(unreadable, Error::BadResponse(s) if s == "502 Bad Gateway"));
}

#[test]
fn bodies_are_capped() {
    assert!(cap_body(None).is_none());
    assert!(cap_body(Some(Vec::new())).is_none());
    let small = cap_body(Some(vec![1, 2])).unwrap();
    assert_eq!((small.bytes, small.truncated), (vec![1, 2], false));
    let large = cap_body(Some(vec![b'x'; BAD_RESPONSE_BODY_CAP + 5])).unwrap();
    assert_eq!((large.bytes.len(), large.truncated), (1 << 20, true));
    match collect_bad_response(500, None, Some(large), None) {
        Error::BadResponse(s) => {
            assert!(s.ends_with("x (error body truncated to 1048576 bytes)"))
        }
        other => panic!("expected BadResponse, got {other:?}"),
    }
}

#[test]
fn headers_must_be_visible_ascii() {
    assert_eq!(header_text(b"a\tb ~"), Some("a\tb ~".to_string()));
    assert_eq!(header_text(&[0x7f]), None);
    assert_eq!(header_text(&[0x80]), None);
    assert_eq!(header_text(b"\n"), None);
}

#[test]
fn a_response_is_streamed_or_has_failed() {
    let head = collect_response(
        200,
        ResponseHeaders {
            exception_code: None,
            exception_tag: Some(b"tag".to_vec()),
            summary: Some(b"{}".to_vec()),
        },
    );
    match head {
        ResponseHead::Stream { chunks, summary } => {
            assert!(!chunks.is_terminated());
            assert_eq!(chunks.exception_tag.as_deref(), Some(b"tag".as_slice()));
            assert_eq!(summary.as_deref(), Some("{}"));
        }
        ResponseHead::Failed { .. } => panic!("expected a stream"),
    }
    let head = collect_response(
        200,
        ResponseHeaders {
            exception_code: Some(b"60".to_vec()),
            exception_tag: None,
            summary: None,
        },
    );
    match head {
        ResponseHead::Failed { exception_code } => {
            assert_eq!(exception_code.as_deref(), Some("Code: 60"));
        }
        ResponseHead::Stream { .. } => panic!("expected a failure"),
    }
    let head = collect_response(
        500,
        ResponseHeaders { exception_code: None, exception_tag: None, summary: None },
    );
    assert!(matches!(head, ResponseHead::Failed { exception_code: None }));
}

#[test]
fn streams_stay_ended() {
    let mut chunks = Chunks::new(None);
    assert!(matches!(chunks.poll_next(Polled::Pending), Polled::Pending));
    match chunks.poll_next(Polled::Chunk(plain_chunk(vec![1, 2]))) {
        Polled::Chunk(chunk) => assert_eq!((chunk.data, chunk.net_size), (vec![1, 2], 2)),
        other => panic!("expected a chunk, got {other:?}"),
    }
    let last = plain_chunk(b"Code: 7. DB::Exception: x (version 1 (y))\n".to_vec());
    match chunks.poll_next(Polled::Chunk(last)) {
        Polled::Failed(e) => assert_eq!(code_of(Some(e)), Some(7)),
        other => panic!("expected a failure, got {other:?}"),
    }
    assert!(chunks.is_terminated());
    assert!(matches!(
        chunks.poll_next(Polled::Chunk(plain_chunk(vec![1]))),
        Polled::Ended
    ));
    assert!(Chunks::empty().is_terminated());
}

#[test]
fn bodies_are_read_to_their_end() {
    assert!(finish(Polled::Pending).is_none());
    assert!(finish(Polled::Chunk(plain_chunk(vec![1]))).is_none());
    assert!(matches!(finish(Polled::Ended), Some(Ok(()))));
    assert!(matches!(finish(Polled::Failed(Error::TimedOut)), Some(Err(Error::TimedOut))));
    assert_eq!(collect_bytes(&vec![vec![1], vec![], vec![2, 3]]), vec![1, 2, 3]);
}

#[test]
fn messages_are_reported_as_they_are_encoded() {
    let chunk = "Code: 159. DB::Exception: za d\u{142}ugo (TIMEOUT_EXCEEDED) (version 24.1 (official build))\n";
    match extract_exception(chunk.as_bytes(), None) {
        Some(Error::ServerException { code, message, .. }) => {
            assert_eq!(code, 159);
            assert!(message.contains("za d\u{142}ugo"), "{message}");
        }
        other => panic!("expected a server exception, got {other:?}"),
    }
}

#[test]
fn an_empty_chunk_holds_no_exception() {
    assert!(extract_exception_old(b"").is_none());
    assert!(extract_exception(b"", None).is_none());
}
