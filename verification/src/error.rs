//! Errors: what can go wrong, how it reads, and whether trying again may help.
use vstd::prelude::*;

use crate::recovery::{self, FailureLocation};
use crate::text::push_decimal;

verus! {

/// A result with the error type of this library.
pub type Result<T> = std::result::Result<T, Error>;

/// Everything that can go wrong. Where the cause lies outside of this library, its text
/// is kept.
#[derive(Debug)]
#[non_exhaustive]
pub enum Error {
    InvalidParams(String),
    Network(String),
    Compression(String),
    Decompression(String),
    RowNotFound,
    SequenceMustHaveLength,
    DeserializeAnyNotSupported,
    NotEnoughData,
    InvalidUtf8Encoding(String),
    InvalidTagEncoding(usize),
    VariantDiscriminatorIsOutOfBound(usize),
    Custom(String),
    /// The background worker has exited; its inserter accepts nothing more.
    WorkerExited,
    /// An inserter was used in a way that it was not made for.
    AsyncInserterApiMisuse { method: &'static str, hint: &'static str },
    /// An exception that the server reported in a form that could be taken apart.
    ServerException {
        code: u32,
        name: Option<String>,
        message: String,
        stack_trace: Option<String>,
    },
    BadResponse(String),
    TimedOut,
    InvalidColumnsHeader(String),
    SchemaMismatch(String),
    Unsupported(String),
    Other(String),
}

/// The codes of server exceptions that may pass when the request is made again.
pub open spec fn is_transient_code(code: u32) -> bool {
    ||| code == 159  // TIMEOUT_EXCEEDED
    ||| code == 160  // TOO_SLOW
    ||| code == 202  // TOO_MANY_SIMULTANEOUS_QUERIES
    ||| code == 209  // SOCKET_TIMEOUT
    ||| code == 210  // NETWORK_ERROR
    ||| code == 236  // ABORTED
    ||| code == 241  // MEMORY_LIMIT_EXCEEDED
    ||| code == 252  // TOO_MANY_PARTS
    ||| code == 279  // ALL_CONNECTION_TRIES_FAILED
    ||| code == 290  // LIMIT_EXCEEDED
    ||| code == 319  // UNKNOWN_STATUS_OF_INSERT
    ||| code == 439  // CANNOT_SCHEDULE_TASK
    ||| code == 999  // KEEPER_EXCEPTION
}

/// The errors that may pass when the request is made again: those of the transport and
/// the transient ones of the server.
pub open spec fn is_transient(e: Error) -> bool {
    match e {
        Error::Network(_) => true,
        Error::TimedOut => true,
        Error::ServerException { code, .. } => is_transient_code(code),
        _ => false,
    }
}

/// The name of an error's variant.
pub open spec fn variant_name(e: Error) -> Seq<char> {
    match e {
        Error::InvalidParams(_) => "InvalidParams"@,
        Error::Network(_) => "Network"@,
        Error::Compression(_) => "Compression"@,
        Error::Decompression(_) => "Decompression"@,
        Error::RowNotFound => "RowNotFound"@,
        Error::SequenceMustHaveLength => "SequenceMustHaveLength"@,
        Error::DeserializeAnyNotSupported => "DeserializeAnyNotSupported"@,
        Error::NotEnoughData => "NotEnoughData"@,
        Error::InvalidUtf8Encoding(_) => "InvalidUtf8Encoding"@,
        Error::InvalidTagEncoding(_) => "InvalidTagEncoding"@,
        Error::VariantDiscriminatorIsOutOfBound(_) => "VariantDiscriminatorIsOutOfBound"@,
        Error::Custom(_) => "Custom"@,
        Error::WorkerExited => "WorkerExited"@,
        Error::AsyncInserterApiMisuse { .. } => "AsyncInserterApiMisuse"@,
        Error::ServerException { .. } => "ServerException"@,
        Error::BadResponse(_) => "BadResponse"@,
        Error::TimedOut => "TimedOut"@,
        Error::InvalidColumnsHeader(_) => "InvalidColumnsHeader"@,
        Error::SchemaMismatch(_) => "SchemaMismatch"@,
        Error::Unsupported(_) => "Unsupported"@,
        Error::Other(_) => "Other"@,
    }
}

/// How an error reads.
pub open spec fn message_of(e: Error) -> Seq<char> {
    match e {
        Error::InvalidParams(s) => "invalid params: "@ + s@,
        Error::Network(s) => "network error: "@ + s@,
        Error::Compression(s) => "compression error: "@ + s@,
        Error::Decompression(s) => "decompression error: "@ + s@,
        Error::RowNotFound =>
            "no rows returned by a query that expected to return at least one row"@,
        Error::SequenceMustHaveLength => "sequences must have a known size ahead of time"@,
        Error::DeserializeAnyNotSupported => "`deserialize_any` is not supported"@,
        Error::NotEnoughData =>
            "not enough data, probably a row type mismatches a database schema"@,
        Error::InvalidUtf8Encoding(_) => "string is not valid utf8"@,
        Error::InvalidTagEncoding(_) => "tag for enum is not valid"@,
        Error::VariantDiscriminatorIsOutOfBound(n) =>
            "max number of types in the Variant data type is 255, got "@ + crate::text::decimal(
            n as nat,
        ),
        Error::Custom(s) => "a custom error message from serde: "@ + s@,
        Error::WorkerExited =>
            "background worker task has exited; the inserter is no longer accepting commands"@,
        Error::AsyncInserterApiMisuse { method, hint } => "AsyncInserter API misuse: `"@ + method@
            + "` -- "@ + hint@,
        Error::ServerException { code, message, .. } => "server error code "@
            + crate::text::decimal(code as nat) + ": "@ + message@,
        Error::BadResponse(s) => "bad response: "@ + s@,
        Error::TimedOut => "timeout expired"@,
        Error::InvalidColumnsHeader(s) =>
            "error while parsing columns header from the response: "@ + s@,
        Error::SchemaMismatch(s) => "schema mismatch: "@ + s@,
        Error::Unsupported(s) => "unsupported: "@ + s@,
        Error::Other(s) => s@,
    }
}

fn join(a: &str, b: &str) -> (out: String)
    ensures
        out@ == a@ + b@,
{
    let mut out = a.to_owned();
    out.push_str(b);
    out
}

impl Error {
    /// How the error reads.
    pub fn message(&self) -> (out: String)
        ensures
            out@ == message_of(*self),
    {
        match self {
            Error::InvalidParams(s) => join("invalid params: ", s.as_str()),
            Error::Network(s) => join("network error: ", s.as_str()),
            Error::Compression(s) => join("compression error: ", s.as_str()),
            Error::Decompression(s) => join("decompression error: ", s.as_str()),
            Error::RowNotFound =>
                "no rows returned by a query that expected to return at least one row".to_owned(),
            Error::SequenceMustHaveLength =>
                "sequences must have a known size ahead of time".to_owned(),
            Error::DeserializeAnyNotSupported => "`deserialize_any` is not supported".to_owned(),
            Error::NotEnoughData =>
                "not enough data, probably a row type mismatches a database schema".to_owned(),
            Error::InvalidUtf8Encoding(_) => "string is not valid utf8".to_owned(),
            Error::InvalidTagEncoding(_) => "tag for enum is not valid".to_owned(),
            Error::VariantDiscriminatorIsOutOfBound(n) => {
                let mut out = "max number of types in the Variant data type is 255, got ".to_owned();
                push_decimal(&mut out, *n as u64);
                out
            },
            Error::Custom(s) => join("a custom error message from serde: ", s.as_str()),
            Error::WorkerExited =>
                "background worker task has exited; the inserter is no longer accepting commands".to_owned(),
            Error::AsyncInserterApiMisuse { method, hint } => {
                let mut out = join("AsyncInserter API misuse: `", method);
                out.push_str("` -- ");
                out.push_str(hint);
                out
            },
            Error::ServerException { code, message, .. } => {
                let mut out = "server error code ".to_owned();
                push_decimal(&mut out, *code as u64);
                out.push_str(": ");
                out.push_str(message.as_str());
                out
            },
            Error::BadResponse(s) => join("bad response: ", s.as_str()),
            Error::TimedOut => "timeout expired".to_owned(),
            Error::InvalidColumnsHeader(s) => join(
                "error while parsing columns header from the response: ",
                s.as_str(),
            ),
            Error::SchemaMismatch(s) => join("schema mismatch: ", s.as_str()),
            Error::Unsupported(s) => join("unsupported: ", s.as_str()),
            Error::Other(s) => s.clone(),
        }
    }

    /// Where the server says that an insert failed.
    #[must_use]
    pub fn failing_row(&self) -> (r: Option<FailureLocation>)
        ensures
            r == recovery::location_in_error(*self),
    {
        recovery::failing_row_from_error(self)
    }

    /// Whether making the request again may help. Unknown errors count as final.
    #[must_use]
    pub fn is_retriable(&self) -> (r: bool)
        ensures
            r == is_transient(*self),
    {
        match self {
            Error::Network(_) | Error::TimedOut => true,
            Error::ServerException { code, .. } => Error::is_retriable_code(*code),
            _ => false,
        }
    }

    /// Whether a server exception with this code may pass when the request is made again.
    #[must_use]
    pub fn is_retriable_code(code: u32) -> (r: bool)
        ensures
            r == is_transient_code(code),
    {
        matches!(
            code,
            159 | 160 | 202 | 209 | 210 | 236 | 241 | 252 | 279 | 290 | 319 | 439 | 999
        )
    }

    /// The name of the error's variant.
    pub fn error_type(&self) -> (r: &'static str)
        ensures
            r@ == variant_name(*self),
    {
        match self {
            Error::InvalidParams(_) => "InvalidParams",
            Error::Network(_) => "Network",
            Error::Compression(_) => "Compression",
            Error::Decompression(_) => "Decompression",
            Error::RowNotFound => "RowNotFound",
            Error::SequenceMustHaveLength => "SequenceMustHaveLength",
            Error::DeserializeAnyNotSupported => "DeserializeAnyNotSupported",
            Error::NotEnoughData => "NotEnoughData",
            Error::InvalidUtf8Encoding(_) => "InvalidUtf8Encoding",
            Error::InvalidTagEncoding(_) => "InvalidTagEncoding",
            Error::VariantDiscriminatorIsOutOfBound(_) => "VariantDiscriminatorIsOutOfBound",
            Error::Custom(_) => "Custom",
            Error::WorkerExited => "WorkerExited",
            Error::AsyncInserterApiMisuse { .. } => "AsyncInserterApiMisuse",
            Error::ServerException { .. } => "ServerException",
            Error::BadResponse(_) => "BadResponse",
            Error::TimedOut => "TimedOut",
            Error::InvalidColumnsHeader(_) => "InvalidColumnsHeader",
            Error::SchemaMismatch(_) => "SchemaMismatch",
            Error::Unsupported(_) => "Unsupported",
            Error::Other(_) => "Other",
        }
    }

    /// How the error is described in a trace: what was being done, then the error.
    pub fn span_description(&self, msg: &str) -> (out: String)
        ensures
            out@ == msg@ + ": "@ + message_of(*self),
    {
        let mut out = join(msg, ": ");
        let text = self.message();
        out.push_str(text.as_str());
        out
    }

    /// The error for a request that the HTTP client could not make. `connect_source` is the
    /// text of the cause where the connection could not be opened. Without TLS, an address
    /// that is not HTTP is reported as such.
    pub fn from_client_error(connect_source: Option<&str>, text: String, tls: bool) -> (r: Error)
        ensures
            (!tls && connect_source is Some && connect_source->0@
                == "invalid URL, scheme is not http"@) ==> (r matches Error::Unsupported(s) && s@
                == "invalid URL, scheme is not http; if you are trying to connect via HTTPS, consider enabling `native-tls` or `rustls-tls` feature"@),
            !(!tls && connect_source is Some && connect_source->0@
                == "invalid URL, scheme is not http"@) ==> r == Error::Network(text),
    {
        if !tls {
            if let Some(source) = connect_source {
                let chars = crate::text::chars_of(source);
                if crate::text::is_text(chars.as_slice(), "invalid URL, scheme is not http") {
                    return Error::Unsupported(
                        "invalid URL, scheme is not http; if you are trying to connect via HTTPS, consider enabling `native-tls` or `rustls-tls` feature".to_owned(),
                    );
                }
            }
        }
        Error::Network(text)
    }
}

/// The kinds of I/O errors that are told apart.
#[derive(Clone, Copy, Debug, PartialEq, Eq, Structural)]
pub enum IoErrorKind {
    ConnectionRefused,
    ConnectionReset,
    ConnectionAborted,
    NotConnected,
    BrokenPipe,
    WouldBlock,
    InvalidInput,
    InvalidData,
    TimedOut,
    WriteZero,
    Interrupted,
    UnexpectedEof,
    Other,
}

/// What an I/O error carries: an error of this library, or a text.
#[derive(Debug)]
pub enum IoPayload {
    Library(Box<Error>),
    Text(String),
}

/// An I/O error.
#[derive(Debug)]
pub struct IoError {
    pub kind: IoErrorKind,
    pub payload: IoPayload,
}

impl IoError {
    /// An I/O error with a text.
    pub fn new(kind: IoErrorKind, text: String) -> (r: IoError)
        ensures
            r == (IoError { kind, payload: IoPayload::Text(text) }),
    {
        IoError { kind, payload: IoPayload::Text(text) }
    }

    /// The kind of the error.
    pub fn kind(&self) -> (r: IoErrorKind)
        ensures
            r == self.kind,
    {
        self.kind
    }

    /// How the error reads.
    pub fn message(&self) -> (out: String)
        ensures
            out@ == (match self.payload {
                IoPayload::Library(e) => message_of(*e),
                IoPayload::Text(s) => s@,
            }),
    {
        match &self.payload {
            IoPayload::Library(e) => e.message(),
            IoPayload::Text(s) => s.clone(),
        }
    }
}

/// An error of this library travels inside an I/O error of the kind `Other`.
impl From<Error> for IoError {
    fn from(error: Error) -> (r: IoError) {
        IoError { kind: IoErrorKind::Other, payload: IoPayload::Library(Box::new(error)) }
    }
}

impl vstd::std_specs::convert::FromSpecImpl<Error> for IoError {
    open spec fn obeys_from_spec() -> bool {
        true
    }

    open spec fn from_spec(error: Error) -> IoError {
        IoError { kind: IoErrorKind::Other, payload: IoPayload::Library(Box::new(error)) }
    }
}

/// An I/O error gives back the error of this library that it carries, if it does.
impl From<IoError> for Error {
    fn from(error: IoError) -> (r: Error) {
        match error.payload {
            IoPayload::Library(e) => *e,
            IoPayload::Text(s) => Error::Other(s),
        }
    }
}

impl vstd::std_specs::convert::FromSpecImpl<IoError> for Error {
    open spec fn obeys_from_spec() -> bool {
        true
    }

    open spec fn from_spec(error: IoError) -> Error {
        match error.payload {
            IoPayload::Library(e) => *e,
            IoPayload::Text(s) => Error::Other(s),
        }
    }
}

/// An error that travels through an I/O error comes back as it was.
pub proof fn io_round_trip(e: Error)
    ensures
        <Error as vstd::std_specs::convert::FromSpec<IoError>>::from_spec(
            <IoError as vstd::std_specs::convert::FromSpec<Error>>::from_spec(e),
        ) == e,
{
}

/// An error of this library travels in an I/O error of no other kind, and a text that an I/O error
/// carries comes out as that text.
pub proof fn io_errors_keep_what_they_carry(e: Error, kind: IoErrorKind, text: String)
    ensures
        <IoError as vstd::std_specs::convert::FromSpec<Error>>::from_spec(e).kind
            == IoErrorKind::Other,
        <Error as vstd::std_specs::convert::FromSpec<IoError>>::from_spec(
            IoError { kind, payload: IoPayload::Text(text) },
        ) == Error::Other(text),
        <Error as vstd::std_specs::convert::FromSpec<IoError>>::from_spec(
            IoError { kind, payload: IoPayload::Library(Box::new(e)) },
        ) == e,
{
}

/// An error is transient because of the transport or because of its code, and a code that
/// is not listed never makes it so.
pub proof fn unknown_codes_are_final(code: u32, name: Option<String>, message: String, stack_trace: Option<String>)
    requires
        !is_transient_code(code),
    ensures
        !is_transient(Error::ServerException { code, name, message, stack_trace }),
{
}

/// The server's exceptions that may pass when the request is made again, by code and name.
pub open spec fn transient_exceptions() -> Seq<(u32, Seq<char>)> {
    seq![
        (159u32, "TIMEOUT_EXCEEDED"@),
        (160u32, "TOO_SLOW"@),
        (202u32, "TOO_MANY_SIMULTANEOUS_QUERIES"@),
        (209u32, "SOCKET_TIMEOUT"@),
        (210u32, "NETWORK_ERROR"@),
        (236u32, "ABORTED"@),
        (241u32, "MEMORY_LIMIT_EXCEEDED"@),
        (252u32, "TOO_MANY_PARTS"@),
        (279u32, "ALL_CONNECTION_TRIES_FAILED"@),
        (290u32, "LIMIT_EXCEEDED"@),
        (319u32, "UNKNOWN_STATUS_OF_INSERT"@),
        (439u32, "CANNOT_SCHEDULE_TASK"@),
        (999u32, "KEEPER_EXCEPTION"@),
    ]
}

/// A server's exception may pass exactly where its code is listed; whatever it is called and
/// whatever it says does not matter.
pub proof fn listed_exceptions_may_pass(
    code: u32,
    name: Option<String>,
    message: String,
    stack_trace: Option<String>,
)
    ensures
        is_transient(Error::ServerException { code, name, message, stack_trace }) <==> exists|i: int|
            0 <= i < transient_exceptions().len() && (#[trigger] transient_exceptions()[i]).0
                == code,
{
    let listed = transient_exceptions();
    assert(listed.len() == 13);
    assert(listed[0].0 == 159 && listed[1].0 == 160 && listed[2].0 == 202 && listed[3].0 == 209);
    assert(listed[4].0 == 210 && listed[5].0 == 236 && listed[6].0 == 241 && listed[7].0 == 252);
    assert(listed[8].0 == 279 && listed[9].0 == 290 && listed[10].0 == 319);
    assert(listed[11].0 == 439 && listed[12].0 == 999);
}

/// Besides the server's exceptions, the errors of the transport may pass, and no others.
pub proof fn transport_errors_may_pass(e: Error)
    requires
        !(e is ServerException),
    ensures
        is_transient(e) <==> e is Network || e is TimedOut,
{
}

/// The text of the cause that an error keeps.
pub open spec fn cause_of(e: Error) -> Option<Seq<char>> {
    match e {
        Error::InvalidParams(s) => Some(s@),
        Error::Network(s) => Some(s@),
        Error::Compression(s) => Some(s@),
        Error::Decompression(s) => Some(s@),
        Error::Custom(s) => Some(s@),
        Error::ServerException { message, .. } => Some(message@),
        Error::BadResponse(s) => Some(s@),
        Error::InvalidColumnsHeader(s) => Some(s@),
        Error::SchemaMismatch(s) => Some(s@),
        Error::Unsupported(s) => Some(s@),
        Error::Other(s) => Some(s@),
        _ => None,
    }
}

/// An error with a cause reads as something that goes by its kind and ends with the cause as it is;
/// an exception of the server also tells its code.
pub proof fn errors_tell_their_cause(e: Error)
    ensures
        cause_of(e) matches Some(s) ==> s.len() <= message_of(e).len() && message_of(e).skip(
            message_of(e).len() - s.len(),
        ) == s,
        e matches Error::ServerException { code, message, .. } ==> message_of(e)
            == "server error code "@ + crate::text::decimal(code as nat) + ": "@ + message@,
        e matches Error::Other(s) ==> message_of(e) == s@,
{
    if let Some(s) = cause_of(e) {
        assert(message_of(e).skip(message_of(e).len() - s.len()) =~= s);
    }
}

/// Errors read as what kind they are and then as their cause; errors of one kind differ in nothing
/// else.
pub proof fn errors_read_by_their_kind(s: String)
    ensures
        message_of(Error::InvalidParams(s)) == "invalid params: "@ + s@,
        message_of(Error::Network(s)) == "network error: "@ + s@,
        message_of(Error::Compression(s)) == "compression error: "@ + s@,
        message_of(Error::Decompression(s)) == "decompression error: "@ + s@,
        message_of(Error::Custom(s)) == "a custom error message from serde: "@ + s@,
        message_of(Error::BadResponse(s)) == "bad response: "@ + s@,
        message_of(Error::SchemaMismatch(s)) == "schema mismatch: "@ + s@,
        message_of(Error::Unsupported(s)) == "unsupported: "@ + s@,
        message_of(Error::InvalidColumnsHeader(s))
            == "error while parsing columns header from the response: "@ + s@,
        message_of(Error::TimedOut) == "timeout expired"@,
{
}

/// The name of an error tells its kind: no two kinds share one.
pub proof fn error_names_tell_the_kind(e: Error)
    ensures
        variant_name(e) == "InvalidParams"@ <==> e is InvalidParams,
        variant_name(e) == "Network"@ <==> e is Network,
        variant_name(e) == "Compression"@ <==> e is Compression,
        variant_name(e) == "Decompression"@ <==> e is Decompression,
        variant_name(e) == "RowNotFound"@ <==> e is RowNotFound,
        variant_name(e) == "SequenceMustHaveLength"@ <==> e is SequenceMustHaveLength,
        variant_name(e) == "DeserializeAnyNotSupported"@ <==> e is DeserializeAnyNotSupported,
        variant_name(e) == "NotEnoughData"@ <==> e is NotEnoughData,
        variant_name(e) == "InvalidUtf8Encoding"@ <==> e is InvalidUtf8Encoding,
        variant_name(e) == "InvalidTagEncoding"@ <==> e is InvalidTagEncoding,
        variant_name(e) == "VariantDiscriminatorIsOutOfBound"@ <==> e is VariantDiscriminatorIsOutOfBound,
        variant_name(e) == "Custom"@ <==> e is Custom,
        variant_name(e) == "WorkerExited"@ <==> e is WorkerExited,
        variant_name(e) == "AsyncInserterApiMisuse"@ <==> e is AsyncInserterApiMisuse,
        variant_name(e) == "ServerException"@ <==> e is ServerException,
        variant_name(e) == "BadResponse"@ <==> e is BadResponse,
        variant_name(e) == "TimedOut"@ <==> e is TimedOut,
        variant_name(e) == "InvalidColumnsHeader"@ <==> e is InvalidColumnsHeader,
        variant_name(e) == "SchemaMismatch"@ <==> e is SchemaMismatch,
        variant_name(e) == "Unsupported"@ <==> e is Unsupported,
        variant_name(e) == "Other"@ <==> e is Other,
{
    reveal_strlit("InvalidParams");
    reveal_strlit("Network");
    reveal_strlit("Compression");
    reveal_strlit("Decompression");
    reveal_strlit("RowNotFound");
    reveal_strlit("SequenceMustHaveLength");
    reveal_strlit("DeserializeAnyNotSupported");
    reveal_strlit("NotEnoughData");
    reveal_strlit("InvalidUtf8Encoding");
    reveal_strlit("InvalidTagEncoding");
    reveal_strlit("VariantDiscriminatorIsOutOfBound");
    reveal_strlit("Custom");
    reveal_strlit("WorkerExited");
    reveal_strlit("AsyncInserterApiMisuse");
    reveal_strlit("ServerException");
    reveal_strlit("BadResponse");
    reveal_strlit("TimedOut");
    reveal_strlit("InvalidColumnsHeader");
    reveal_strlit("SchemaMismatch");
    reveal_strlit("Unsupported");
    reveal_strlit("Other");
    assert("InvalidParams"@.len() == 13);
    assert("Network"@.len() == 7);
    assert("Compression"@.len() == 11);
    assert("Decompression"@.len() == 13);
    assert("RowNotFound"@.len() == 11);
    assert("SequenceMustHaveLength"@.len() == 22);
    assert("DeserializeAnyNotSupported"@.len() == 26);
    assert("NotEnoughData"@.len() == 13);
    assert("InvalidUtf8Encoding"@.len() == 19);
    assert("InvalidTagEncoding"@.len() == 18);
    assert("VariantDiscriminatorIsOutOfBound"@.len() == 32);
    assert("Custom"@.len() == 6);
    assert("WorkerExited"@.len() == 12);
    assert("AsyncInserterApiMisuse"@.len() == 22);
    assert("ServerException"@.len() == 15);
    assert("BadResponse"@.len() == 11);
    assert("TimedOut"@.len() == 8);
    assert("InvalidColumnsHeader"@.len() == 20);
    assert("SchemaMismatch"@.len() == 14);
    assert("Unsupported"@.len() == 11);
    assert("Other"@.len() == 5);
    assert("Decompression"@[0] != "InvalidParams"@[0]);
    assert("RowNotFound"@[0] != "Compression"@[0]);
    assert("NotEnoughData"@[0] != "InvalidParams"@[0]);
    assert("NotEnoughData"@[0] != "Decompression"@[0]);
    assert("AsyncInserterApiMisuse"@[0] != "SequenceMustHaveLength"@[0]);
    assert("BadResponse"@[0] != "Compression"@[0]);
    assert("BadResponse"@[0] != "RowNotFound"@[0]);
    assert("Unsupported"@[0] != "Compression"@[0]);
    assert("Unsupported"@[0] != "RowNotFound"@[0]);
    assert("Unsupported"@[0] != "BadResponse"@[0]);
}

} // verus!
