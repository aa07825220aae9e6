use clickhouse::error::{Error, IoError, IoErrorKind};

#[test]
fn roundtrip_io_error() {
    let orig = Error::NotEnoughData;

    let orig_str = orig.message();
    let io = IoError::from(orig);
    assert_eq!(io.kind(), IoErrorKind::Other);
    assert_eq!(io.message(), orig_str);

    let orig = Error::from(io);
    assert!(matches!(orig, Error::NotEnoughData));
}

#[test]
fn is_retriable_classifies_known_transient_codes() {
    let make = |code: u32| Error::ServerException {
        code,
        name: None,
        message: String::new(),
        stack_trace: None,
    };

    for &code in &[159u32, 160, 202, 209, 210, 236, 241, 252, 279, 290, 319, 439, 999] {
        assert!(make(code).is_retriable(), "code {code} should be retriable");
    }

    for &code in &[36u32, 60, 117, 192, 195, 469] {
        assert!(!make(code).is_retriable(), "code {code} should NOT be retriable");
    }
}

#[test]
fn is_retriable_for_transport_errors() {
    assert!(Error::TimedOut.is_retriable());
    let net_err: Error = IoError::new(IoErrorKind::ConnectionReset, "reset".to_string()).into();
    assert!(!net_err.is_retriable());
    assert!(Error::Network("unreachable".to_string()).is_retriable());
}

#[test]
fn is_retriable_code_defaults_unknown_to_not_retriable() {
    for &code in &[0u32, 1, 12345, 99999, u32::MAX] {
        assert!(
            !Error::is_retriable_code(code),
            "unknown code {code} should default to NOT retriable"
        );
    }
}

#[test]
fn errors_read_as_documented() {
    let told = Error::ServerException {
        code: 60,
        name: Some("UNKNOWN_TABLE".to_string()),
        message: "no such table".to_string(),
        stack_trace: None,
    };
    assert_eq!(told.message(), "server error code 60: no such table");
    assert_eq!(told.error_type(), "ServerException");
    assert_eq!(told.span_description("query"), "query: server error code 60: no such table");
    assert_eq!(Error::BadResponse("x".to_string()).message(), "bad response: x");
    assert_eq!(Error::Other("plain".to_string()).message(), "plain");
    assert_eq!(
        Error::VariantDiscriminatorIsOutOfBound(256).message(),
        "max number of types in the Variant data type is 255, got 256"
    );
    assert_eq!(
        Error::AsyncInserterApiMisuse { method: "write", hint: "await it" }.message(),
        "AsyncInserter API misuse: `write` -- await it"
    );
    assert_eq!(Error::TimedOut.error_type(), "TimedOut");
}

#[test]
fn https_without_tls_is_explained() {
    let told = Error::from_client_error(
        Some("invalid URL, scheme is not http"),
        "client error".to_string(),
        false,
    );
    assert!(matches!(&told, Error::Unsupported(s) if s.contains("HTTPS")));
    let told = Error::from_client_error(
        Some("invalid URL, scheme is not http"),
        "client error".to_string(),
        true,
    );
    assert!(matches!(&told, Error::Network(s) if s == "client error"));
    let told = Error::from_client_error(None, "client error".to_string(), false);
    assert!(matches!(&told, Error::Network(s) if s == "client error"));
}
