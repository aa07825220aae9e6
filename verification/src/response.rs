//! What a server answers: exceptions in headers, bodies and streams.
use vstd::prelude::*;
use vstd::utf8::*;

use crate::error::{Error, Result};
use crate::native::wire::slice_between;
use crate::text::{self, chars_between, chars_of, push_decimal, string_of};

verus! {

/// An error as a server reports it, with texts as sequences.
pub enum Fault {
    Exception {
        code: u32,
        name: Option<Seq<char>>,
        message: Seq<char>,
        stack_trace: Option<Seq<char>>,
    },
    BadResponse(Seq<char>),
    Other(Seq<char>),
    /// An error that no response gives.
    Unrelated,
}

/// The text of an optional string.
pub open spec fn opt_text(s: Option<String>) -> Option<Seq<char>> {
    match s {
        Some(s) => Some(s@),
        None => None,
    }
}

/// What an error reports.
pub open spec fn fault_of(e: Error) -> Fault {
    match e {
        Error::ServerException { code, name, message, stack_trace } => Fault::Exception {
            code,
            name: opt_text(name),
            message: message@,
            stack_trace: opt_text(stack_trace),
        },
        Error::BadResponse(s) => Fault::BadResponse(s@),
        Error::Other(s) => Fault::Other(s@),
        _ => Fault::Unrelated,
    }
}

/// What an optional error reports.
pub open spec fn opt_fault(e: Option<Error>) -> Option<Fault> {
    match e {
        Some(e) => Some(fault_of(e)),
        None => None,
    }
}

/// The text behind a prefix, where it has that prefix.
pub open spec fn behind(s: Seq<char>, prefix: Seq<char>) -> Option<Seq<char>> {
    if text::occurs_at(s, prefix, 0) {
        Some(s.skip(prefix.len() as int))
    } else {
        None
    }
}

/// The code that a header gives: a number, behind `Code: ` or alone.
pub open spec fn code_in_header(header: Seq<char>) -> Option<nat> {
    let number = match behind(text::trimmed(header), "Code: "@) {
        Some(rest) => rest,
        None => header,
    };
    text::parsed_uint(number, u32::MAX as nat)
}

/// The code that a body gives: the number between `Code: ` at its start and the first dot.
pub open spec fn code_in_body(body: Seq<char>) -> Option<nat> {
    match behind(body, "Code: "@) {
        Some(rest) => match text::first_index(rest, seq!['.'], 0) {
            Some(i) => text::parsed_uint(text::trimmed(rest.take(i)), u32::MAX as nat),
            None => None,
        },
        None => None,
    }
}

/// The code of an exception. The header goes before the body.
pub open spec fn exception_code(body: Seq<char>, header: Option<Seq<char>>) -> Option<nat> {
    match header {
        Some(h) => match code_in_header(h) {
            Some(code) => Some(code),
            None => code_in_body(body),
        },
        None => code_in_body(body),
    }
}

/// What follows the first `Exception: `, or all of the body.
pub open spec fn exception_text(body: Seq<char>) -> Seq<char> {
    match text::first_index(body, "Exception: "@, 0) {
        Some(i) => text::trimmed(body.skip(i + "Exception: "@.len())),
        None => text::trimmed(body),
    }
}

/// The text in front of the last `(version `, if it is there.
pub open spec fn without_version(s: Seq<char>) -> Seq<char> {
    match text::last_index(s, "(version "@, s.len() as int) {
        Some(i) => text::trimmed_end_of(s.take(i), seq![' ', '.', ',']),
        None => s,
    }
}

/// A character of an exception's name.
pub open spec fn is_name_char(c: char) -> bool {
    ('A' <= c <= 'Z') || ('0' <= c <= '9') || c == '_'
}

/// A text is the name of an exception.
pub open spec fn is_exception_name(s: Seq<char>) -> bool {
    s.len() > 0 && forall|i: int| 0 <= i < s.len() ==> is_name_char(#[trigger] s[i])
}

/// The name in round brackets at the end of a text, with what stands in front of it.
pub open spec fn name_at_end(s: Seq<char>) -> Option<(Seq<char>, Seq<char>)> {
    if s.len() > 0 && s.last() == ')' {
        match text::last_index(s, seq!['('], s.len() as int) {
            Some(open) => if is_exception_name(s.subrange(open + 1, s.len() - 1)) {
                Some(
                    (
                        text::trimmed_end_of(s.take(open), seq![':', ' ', '.', ',']),
                        s.subrange(open + 1, s.len() - 1),
                    ),
                )
            } else {
                None
            },
            None => None,
        }
    } else {
        None
    }
}

/// The message and the stack trace in a text.
pub open spec fn trace_split(s: Seq<char>) -> (Seq<char>, Option<Seq<char>>) {
    match text::first_index(s, "Stack trace:"@, 0) {
        Some(i) => (
            text::trimmed_end(s.take(i)),
            Some(text::trimmed(s.skip(i + "Stack trace:"@.len()))),
        ),
        None => (text::trimmed(s), None),
    }
}

/// The exception that a body describes, if it has a code and a message.
pub open spec fn server_exception(body: Seq<char>, header: Option<Seq<char>>) -> Option<Fault> {
    match exception_code(body, header) {
        Some(code) => {
            let described = without_version(exception_text(body));
            let (rest, name) = match name_at_end(described) {
                Some((front, name)) => (front, Some(name)),
                None => (described, None),
            };
            let (message, stack_trace) = trace_split(rest);
            if message.len() == 0 {
                None
            } else {
                Some(Fault::Exception { code: code as u32, name, message, stack_trace })
            }
        },
        None => None,
    }
}

/// What a text from a server reports: the exception that it describes, or the text itself.
pub open spec fn reported(s: Seq<char>, header: Option<Seq<char>>) -> Fault {
    match server_exception(s, header) {
        Some(fault) => fault,
        None => Fault::BadResponse(s),
    }
}

fn strip_prefix(chars: &[char], prefix: &str) -> (r: Option<Vec<char>>)
    ensures
        (match r {
            Some(v) => behind(chars@, prefix@) == Some(v@),
            None => behind(chars@, prefix@) is None,
        }),
{
    let wanted = chars_of(prefix);
    if text::stands_at(chars, wanted.as_slice(), 0) {
        let rest = chars_between(chars, wanted.len(), chars.len());
        proof {
            assert(rest@ =~= chars@.skip(prefix@.len() as int));
        }
        Some(rest)
    } else {
        None
    }
}

fn parse_code(chars: &[char]) -> (r: Option<u32>)
    ensures
        (match r {
            Some(v) => text::parsed_uint(chars@, u32::MAX as nat) == Some(v as nat),
            None => text::parsed_uint(chars@, u32::MAX as nat) is None,
        }),
{
    match text::parse_u64(chars) {
        Some(v) => if v <= u32::MAX as u64 {
            Some(v as u32)
        } else {
            None
        },
        None => None,
    }
}

fn header_code(header: &str) -> (r: Option<u32>)
    ensures
        (match r {
            Some(v) => code_in_header(header@) == Some(v as nat),
            None => code_in_header(header@) is None,
        }),
{
    let chars = chars_of(header);
    let tidy = text::trim(chars.as_slice());
    match strip_prefix(tidy.as_slice(), "Code: ") {
        Some(rest) => parse_code(rest.as_slice()),
        None => parse_code(chars.as_slice()),
    }
}

fn body_code(body: &[char]) -> (r: Option<u32>)
    ensures
        (match r {
            Some(v) => code_in_body(body@) == Some(v as nat),
            None => code_in_body(body@) is None,
        }),
{
    let rest = match strip_prefix(body, "Code: ") {
        Some(rest) => rest,
        None => {
            return None;
        },
    };
    let dot: [char; 1] = ['.'];
    proof {
        assert(dot@ =~= seq!['.']);
    }
    match text::find(rest.as_slice(), &dot) {
        Some(i) => {
            let number = chars_between(rest.as_slice(), 0, i);
            proof {
                assert(number@ =~= rest@.take(i as int));
            }
            let number = text::trim(number.as_slice());
            parse_code(number.as_slice())
        },
        None => None,
    }
}

fn described(body: &[char]) -> (out: Vec<char>)
    ensures
        out@ == without_version(exception_text(body@)),
{
    let len: usize = body.len();
    let marker = chars_of("Exception: ");
    let told = match text::find(body, marker.as_slice()) {
        Some(i) => {
            let rest = chars_between(body, i + marker.len(), len);
            proof {
                assert(rest@ =~= body@.skip(i + "Exception: "@.len()));
            }
            text::trim(rest.as_slice())
        },
        None => text::trim(body),
    };
    let version = chars_of("(version ");
    match text::rfind(told.as_slice(), version.as_slice()) {
        Some(i) => {
            let front = chars_between(told.as_slice(), 0, i);
            proof {
                assert(front@ =~= told@.take(i as int));
            }
            let set: [char; 3] = [' ', '.', ','];
            proof {
                assert(set@ =~= seq![' ', '.', ',']);
            }
            text::trim_end_of(front.as_slice(), &set)
        },
        None => told,
    }
}

fn names_exception(chars: &[char]) -> (r: bool)
    ensures
        r == is_exception_name(chars@),
{
    if chars.len() == 0 {
        return false;
    }
    let mut i: usize = 0;
    while i < chars.len()
        invariant
            i <= chars@.len(),
            forall|j: int| 0 <= j < i ==> is_name_char(#[trigger] chars@[j]),
        decreases chars@.len() - i,
    {
        let c = chars[i];
        if !(('A' <= c && c <= 'Z') || ('0' <= c && c <= '9') || c == '_') {
            proof {
                assert(!is_name_char(chars@[i as int]));
            }
            return false;
        }
        i += 1;
    }
    true
}

fn split_name(chars: Vec<char>) -> (r: (Vec<char>, Option<String>))
    ensures
        (match name_at_end(chars@) {
            Some((front, name)) => r.0@ == front && opt_text(r.1) == Some(name),
            None => r.0@ == chars@ && r.1 is None,
        }),
{
    let len: usize = chars.len();
    if len == 0 || chars[len - 1] != ')' {
        return (chars, None);
    }
    let bracket: [char; 1] = ['('];
    proof {
        assert(bracket@ =~= seq!['(']);
        text::lemma_last_index(chars@, bracket@, chars@.len() as int);
    }
    match text::rfind(chars.as_slice(), &bracket) {
        Some(open) => {
            proof {
                assert(chars@.subrange(open as int, open + 1)[0] == '(');
                assert(chars@[open as int] == '(');
                assert(chars@.last() == ')');
            }
            let candidate = chars_between(chars.as_slice(), open + 1, len - 1);
            if names_exception(candidate.as_slice()) {
                let front = chars_between(chars.as_slice(), 0, open);
                proof {
                    assert(front@ =~= chars@.take(open as int));
                }
                let set: [char; 4] = [':', ' ', '.', ','];
                proof {
                    assert(set@ =~= seq![':', ' ', '.', ',']);
                }
                let front = text::trim_end_of(front.as_slice(), &set);
                (front, Some(string_of(candidate.as_slice())))
            } else {
                (chars, None)
            }
        },
        None => (chars, None),
    }
}

fn split_trace(chars: &[char]) -> (r: (String, Option<String>))
    ensures
        (r.0@, opt_text(r.1)) == trace_split(chars@),
{
    let len: usize = chars.len();
    let marker = chars_of("Stack trace:");
    match text::find(chars, marker.as_slice()) {
        Some(i) => {
            let front = chars_between(chars, 0, i);
            let back = chars_between(chars, i + marker.len(), len);
            proof {
                assert(front@ =~= chars@.take(i as int));
                assert(back@ =~= chars@.skip(i + "Stack trace:"@.len()));
            }
            let front = text::trim_end(front.as_slice());
            let back = text::trim(back.as_slice());
            (string_of(front.as_slice()), Some(string_of(back.as_slice())))
        },
        None => {
            let all = text::trim(chars);
            (string_of(all.as_slice()), None)
        },
    }
}

/// Takes apart an exception as a server words it:
/// `Code: 469. DB::Exception: <message> (NAME) (version ...)`, with a stack trace in between
/// where there is one. A code in the header goes before that in the body. A body without a
/// code or without a message gives nothing.
pub fn parse_server_exception(body: &str, header: Option<&str>) -> (r: Option<Error>)
    ensures
        opt_fault(r) == server_exception(
            body@,
            match header {
                Some(h) => Some(h@),
                None => None,
            },
        ),
{
    let chars = chars_of(body);
    let from_header: Option<u32> = match header {
        Some(h) => header_code(h),
        None => None,
    };
    let code: u32 = match from_header {
        Some(code) => code,
        None => match body_code(chars.as_slice()) {
            Some(code) => code,
            None => {
                return None;
            },
        },
    };
    let (rest, name) = split_name(described(chars.as_slice()));
    let (message, stack_trace) = split_trace(rest.as_slice());
    let told = chars_of(message.as_str());
    if told.len() == 0 {
        return None;
    }
    Some(Error::ServerException { code, name, message, stack_trace })
}

/// The error for a text from a server.
pub fn reported_error(text: String, header: Option<&str>) -> (r: Error)
    ensures
        fault_of(r) == reported(
            text@,
            match header {
                Some(h) => Some(h@),
                None => None,
            },
        ),
{
    match parse_server_exception(text.as_str(), header) {
        Some(e) => e,
        None => Error::BadResponse(text),
    }
}

/// `rfind` of bstr's `ByteSlice`: the last position at which the needle stands.
#[verifier::external_body]
fn last_position(bytes: &[u8], needle: &[u8]) -> (r: Option<usize>)
    ensures
        (match r {
            Some(i) => text::last_index(bytes@, needle@, bytes@.len() as int) == Some(i as int),
            None => text::last_index(bytes@, needle@, bytes@.len() as int) is None,
        }),
{
    bstr::ByteSlice::rfind(bytes, needle)
}

/// `contains_str` of bstr's `ByteSlice`: whether the needle stands anywhere.
#[verifier::external_body]
fn holds(bytes: &[u8], needle: &[u8]) -> (r: bool)
    ensures
        r == (text::first_index(bytes@, needle@, 0) is Some),
{
    bstr::ByteSlice::contains_str(bytes, needle)
}

/// What std makes of bytes, also of those that are not valid UTF-8.
pub uninterp spec fn lossy(bytes: Seq<u8>) -> Seq<char>;

/// `String::from_utf8_lossy` of std: the text, with replacement characters where the bytes
/// are not valid UTF-8, and as it is where they are.
#[verifier::external_body]
fn lossy_text(bytes: &[u8]) -> (out: String)
    ensures
        out@ == lossy(bytes@),
        valid_utf8(bytes@) ==> out@ == decode_utf8(bytes@),
{
    String::from_utf8_lossy(bytes).into_owned()
}

/// The text of a message: what its bytes encode, or what std makes of them where they are not
/// valid UTF-8.
pub open spec fn message_text(bytes: Seq<u8>) -> Seq<char> {
    if valid_utf8(bytes) {
        decode_utf8(bytes)
    } else {
        lossy(bytes)
    }
}

/// How std words that bytes are not valid UTF-8.
pub uninterp spec fn utf8_error(bytes: Seq<u8>) -> Seq<char>;

/// `str::from_utf8` of std: the text that the bytes encode, or the text of the error where
/// they are not valid UTF-8.
#[verifier::external_body]
fn checked_text(bytes: &[u8]) -> (r: std::result::Result<String, String>)
    ensures
        (match r {
            Ok(s) => valid_utf8(bytes@) && s@ == decode_utf8(bytes@),
            Err(e) => !valid_utf8(bytes@) && e@ == utf8_error(bytes@),
        }),
{
    std::str::from_utf8(bytes).map(|s| s.to_owned()).map_err(|e| e.to_string())
}

/// How std words that a text is no number of at most `max`.
pub uninterp spec fn number_error(s: Seq<char>, max: nat) -> Seq<char>;

/// `str::parse` of std for `usize`: the number in decimal, or the text of the error where
/// there is none.
#[verifier::external_body]
fn parse_usize(s: &str) -> (r: std::result::Result<usize, String>)
    ensures
        (match r {
            Ok(v) => text::parsed_uint(s@, usize::MAX as nat) == Some(v as nat),
            Err(e) => text::parsed_uint(s@, usize::MAX as nat) is None && e@ == number_error(
                s@,
                usize::MAX as nat,
            ),
        }),
{
    s.parse::<usize>().map_err(|e| e.to_string())
}

/// A text of ASCII characters as bytes.
pub open spec fn ascii(s: Seq<char>) -> Seq<u8> {
    Seq::new(s.len(), |i: int| s[i] as u8)
}

fn ascii_bytes(s: &str) -> (out: Vec<u8>)
    ensures
        out@ == ascii(s@),
{
    let chars = chars_of(s);
    let mut out: Vec<u8> = Vec::new();
    let mut i: usize = 0;
    while i < chars.len()
        invariant
            i <= chars@.len(),
            chars@ == s@,
            out@ == ascii(s@).take(i as int),
        decreases chars@.len() - i,
    {
        out.push(chars[i] as u8);
        proof {
            assert(ascii(s@).take(i + 1) =~= ascii(s@).take(i as int).push(ascii(s@)[i as int]));
        }
        i += 1;
    }
    proof {
        assert(ascii(s@).take(i as int) =~= ascii(s@));
    }
    out
}

/// The bytes in front of a suffix, where they have that suffix.
pub open spec fn in_front_of(bytes: Seq<u8>, suffix: Seq<u8>) -> Option<Seq<u8>> {
    if text::occurs_at(bytes, suffix, bytes.len() - suffix.len()) {
        Some(bytes.take(bytes.len() - suffix.len()))
    } else {
        None
    }
}

fn ends_with(bytes: &[u8], suffix: &[u8]) -> (r: bool)
    ensures
        r == (in_front_of(bytes@, suffix@) is Some),
{
    if suffix.len() > bytes.len() {
        return false;
    }
    let at: usize = bytes.len() - suffix.len();
    let mut i: usize = 0;
    while i < suffix.len()
        invariant
            i <= suffix@.len(),
            at + suffix@.len() == bytes@.len() <= usize::MAX,
            forall|j: int| 0 <= j < i ==> bytes@[at + j] == suffix@[j],
        decreases suffix@.len() - i,
    {
        if bytes[at + i] != suffix[i] {
            proof {
                assert(bytes@.subrange(at as int, at + suffix@.len())[i as int] != suffix@[i as int]);
            }
            return false;
        }
        i += 1;
    }
    proof {
        assert(bytes@.subrange(at as int, at + suffix@.len()) =~= suffix@);
    }
    true
}

fn strip_suffix(bytes: &[u8], suffix: &[u8]) -> (r: Option<Vec<u8>>)
    ensures
        (match r {
            Some(v) => in_front_of(bytes@, suffix@) == Some(v@),
            None => in_front_of(bytes@, suffix@) is None,
        }),
{
    if ends_with(bytes, suffix) {
        let front = slice_between(bytes, 0, bytes.len() - suffix.len());
        proof {
            assert(front@ =~= bytes@.take(bytes@.len() - suffix@.len()));
        }
        Some(front)
    } else {
        None
    }
}

/// The length that a message announces behind itself, or the fault where there is none.
pub open spec fn message_length(bytes: Seq<u8>) -> std::result::Result<nat, Fault> {
    if !valid_utf8(bytes) {
        Err(
            Fault::Other(
                "found exception tag in response but failed to parse message length: "@
                    + utf8_error(bytes),
            ),
        )
    } else {
        let digits = decode_utf8(bytes);
        match text::parsed_uint(digits, usize::MAX as nat) {
            Some(v) => Ok(v),
            None => Err(
                Fault::Other(
                    "found exception tag in response but failed to parse message length "@
                        + text::debug_form(digits) + ": "@ + number_error(
                        digits,
                        usize::MAX as nat,
                    ),
                ),
            ),
        }
    }
}

/// Reads the length of a message: a number in decimal.
pub fn parse_msg_len(len_bytes: &[u8]) -> (r: Result<usize>)
    ensures
        (match r {
            Ok(v) => message_length(len_bytes@) == std::result::Result::<nat, Fault>::Ok(v as nat),
            Err(e) => message_length(len_bytes@) == std::result::Result::<nat, Fault>::Err(
                fault_of(e),
            ),
        }),
{
    let digits = match checked_text(len_bytes) {
        Ok(digits) => digits,
        Err(e) => {
            let mut told =
                "found exception tag in response but failed to parse message length: ".to_owned();
            told.push_str(e.as_str());
            return Err(Error::Other(told));
        },
    };
    match parse_usize(digits.as_str()) {
        Ok(v) => Ok(v),
        Err(e) => {
            let mut told =
                "found exception tag in response but failed to parse message length ".to_owned();
            let quoted = text::debug_text(digits.as_str());
            told.push_str(quoted.as_str());
            told.push_str(": ");
            told.push_str(e.as_str());
            Err(Error::Other(told))
        },
    }
}

/// The exception at the end of a chunk, as older servers write it: from the last `Code:` up
/// to the last line feed, if it names an exception.
pub open spec fn old_exception(chunk: Seq<u8>) -> Option<Fault> {
    match text::last_index(chunk, ascii("Code:"@), chunk.len() as int) {
        Some(i) => {
            let rest = chunk.skip(i);
            if text::first_index(rest, ascii("DB::"@), 0) is Some && text::first_index(
                rest,
                ascii("Exception:"@),
                0,
            ) is Some {
                Some(reported(message_text(chunk.subrange(i, chunk.len() - 1)), None))
            } else {
                None
            }
        },
        None => None,
    }
}

/// What a chunk holds in front of the tag and the marks around it.
pub open spec fn before_tag(chunk: Seq<u8>, tag: Seq<u8>) -> Option<Seq<u8>> {
    match in_front_of(chunk, ascii("\r\n__exception__\r\n"@)) {
        Some(a) => match in_front_of(a, tag) {
            Some(b) => in_front_of(b, ascii(" "@)),
            None => None,
        },
        None => None,
    }
}

/// The exception at the end of a chunk, as newer servers write it: the message, a line
/// feed that counts as part of it, its length in decimal, the tag and a mark.
pub open spec fn new_exception(chunk: Seq<u8>, tag: Seq<u8>) -> Option<Fault> {
    match before_tag(chunk, tag) {
        Some(rem) => match text::last_index(rem, ascii("\n"@), rem.len() as int) {
            Some(i) => {
                let start = i + 1;
                match message_length(rem.skip(start)) {
                    Ok(len) => if len <= start {
                        Some(
                            reported(
                                text::trimmed(message_text(rem.subrange(start - len, start))),
                                None,
                            ),
                        )
                    } else {
                        Some(
                            Fault::Other(
                                "found exception tag in response but message length was invalid: "@
                                    + text::decimal(len) + " (chunk len: "@ + text::decimal(
                                    chunk.len(),
                                ) + ")"@,
                            ),
                        )
                    },
                    Err(fault) => Some(fault),
                }
            },
            None => None,
        },
        None => None,
    }
}

/// The exception at the end of a chunk. The newer form is looked for where the response
/// announced a tag and the chunk ends in its mark.
pub open spec fn exception_in(chunk: Seq<u8>, tag: Option<Seq<u8>>) -> Option<Fault> {
    if tag is Some && in_front_of(chunk, ascii("__exception__\r\n"@)) is Some {
        new_exception(chunk, tag->0)
    } else if in_front_of(chunk, ascii("))\n"@)) is Some {
        old_exception(chunk)
    } else {
        None
    }
}

/// Finds the exception at the end of a chunk. A message that is valid UTF-8 is reported as the
/// text that it encodes.
pub fn extract_exception(chunk: &[u8], tag: Option<&[u8]>) -> (r: Option<Error>)
    ensures
        opt_fault(r) == exception_in(
            chunk@,
            match tag {
                Some(t) => Some(t@),
                None => None,
            },
        ),
{
    if let Some(tag) = tag {
        let mark = ascii_bytes("__exception__\r\n");
        if ends_with(chunk, mark.as_slice()) {
            return extract_exception_new(chunk, tag);
        }
    }
    let end = ascii_bytes("))\n");
    if ends_with(chunk, end.as_slice()) {
        proof {
            reveal_strlit("))\n");
        }
        extract_exception_old(chunk)
    } else {
        None
    }
}

/// Finds an exception in the form of older servers.
pub fn extract_exception_old(chunk: &[u8]) -> (r: Option<Error>)
    ensures
        opt_fault(r) == old_exception(chunk@),
{
    let code = ascii_bytes("Code:");
    proof {
        reveal_strlit("Code:");
        text::lemma_last_index(chunk@, code@, chunk@.len() as int);
    }
    let index: usize = match last_position(chunk, code.as_slice()) {
        Some(index) => index,
        None => {
            return None;
        },
    };
    let rest = slice_between(chunk, index, chunk.len());
    proof {
        assert(rest@ =~= chunk@.skip(index as int));
    }
    let db = ascii_bytes("DB::");
    let exception = ascii_bytes("Exception:");
    if !(holds(rest.as_slice(), db.as_slice()) && holds(rest.as_slice(), exception.as_slice())) {
        return None;
    }
    let told = slice_between(chunk, index, chunk.len() - 1);
    Some(reported_error(lossy_text(told.as_slice()), None))
}

/// Finds an exception in the form of newer servers.
pub fn extract_exception_new(chunk: &[u8], tag: &[u8]) -> (r: Option<Error>)
    ensures
        opt_fault(r) == new_exception(chunk@, tag@),
{
    let mark = ascii_bytes("\r\n__exception__\r\n");
    let space = ascii_bytes(" ");
    let rem = match strip_suffix(chunk, mark.as_slice()) {
        Some(front) => match strip_suffix(front.as_slice(), tag) {
            Some(front) => match strip_suffix(front.as_slice(), space.as_slice()) {
                Some(front) => front,
                None => {
                    return None;
                },
            },
            None => {
                return None;
            },
        },
        None => {
            return None;
        },
    };
    let feed = ascii_bytes("\n");
    proof {
        reveal_strlit("\n");
        text::lemma_last_index(rem@, feed@, rem@.len() as int);
    }
    let len: usize = rem.len();
    let start: usize = match last_position(rem.as_slice(), feed.as_slice()) {
        Some(i) => i + 1,
        None => {
            return None;
        },
    };
    let digits = slice_between(rem.as_slice(), start, len);
    proof {
        assert(digits@ =~= rem@.skip(start as int));
    }
    let msg_len: usize = match parse_msg_len(digits.as_slice()) {
        Ok(msg_len) => msg_len,
        Err(e) => {
            return Some(e);
        },
    };
    if msg_len > start {
        let mut told =
            "found exception tag in response but message length was invalid: ".to_owned();
        push_decimal(&mut told, msg_len as u64);
        told.push_str(" (chunk len: ");
        push_decimal(&mut told, chunk.len() as u64);
        told.push_str(")");
        return Some(Error::Other(told));
    }
    let msg = slice_between(rem.as_slice(), start - msg_len, start);
    let told = lossy_text(msg.as_slice());
    let chars = chars_of(told.as_str());
    let tidy = text::trim(chars.as_slice());
    Some(reported_error(string_of(tidy.as_slice()), None))
}

/// The standard phrase for an HTTP status.
pub uninterp spec fn reason_phrase(status: u16) -> Option<Seq<char>>;

/// `StatusCode::canonical_reason` of http, which hyper hands on: the standard phrase for a
/// status, if there is one. A number that is no status has none.
#[verifier::external_body]
fn canonical_reason(status: u16) -> (r: Option<&'static str>)
    ensures
        (match r {
            Some(phrase) => reason_phrase(status) == Some(phrase@),
            None => reason_phrase(status) is None,
        }),
        !(100 <= status <= 999) ==> r is None,
{
    hyper::StatusCode::from_u16(status).ok().and_then(|s| s.canonical_reason())
}

/// How a failed request reads without a readable body: the code of the exception, or the
/// status with its standard phrase.
pub open spec fn reason_text(status: u16, exception_code: Option<Seq<char>>) -> Seq<char> {
    match exception_code {
        Some(code) => code,
        None => text::decimal(status as nat) + " "@ + (match reason_phrase(status) {
            Some(phrase) => phrase,
            None => "<unknown>"@,
        }),
    }
}

/// How a failed request reads without a readable body.
pub fn reason(status: u16, exception_code: Option<String>) -> (out: String)
    ensures
        out@ == reason_text(status, opt_text(exception_code)),
{
    match exception_code {
        Some(code) => code,
        None => with_phrase(status, canonical_reason(status)),
    }
}

/// A status with its phrase, or with a placeholder.
pub fn with_phrase(status: u16, phrase: Option<&str>) -> (out: String)
    ensures
        out@ == text::decimal(status as nat) + " "@ + (match phrase {
            Some(phrase) => phrase@,
            None => "<unknown>"@,
        }),
{
    let mut out = String::new();
    push_decimal(&mut out, status as u64);
    proof {
        assert(out@ =~= text::decimal(status as nat));
    }
    out.push_str(" ");
    match phrase {
        Some(phrase) => out.push_str(phrase),
        None => out.push_str("<unknown>"),
    }
    out
}

/// How much of the body of a failed request is kept: 1 MiB.
pub const BAD_RESPONSE_BODY_CAP: usize = 1048576;

/// The part of the body of a failed request that is kept.
#[derive(Debug)]
pub struct KeptBody {
    pub bytes: Vec<u8>,
    /// The body was longer.
    pub truncated: bool,
}

/// The bytes of an optional list.
pub open spec fn opt_bytes(b: Option<Vec<u8>>) -> Option<Seq<u8>> {
    match b {
        Some(b) => Some(b@),
        None => None,
    }
}

/// The part of a collected body that is kept, and whether that is less than all of it;
/// nothing where there is none.
pub open spec fn kept_body(body: Option<Seq<u8>>) -> Option<(Seq<u8>, bool)> {
    match body {
        Some(bytes) => if bytes.len() == 0 {
            None
        } else if bytes.len() > BAD_RESPONSE_BODY_CAP {
            Some((bytes.take(BAD_RESPONSE_BODY_CAP as int), true))
        } else {
            Some((bytes, false))
        },
        None => None,
    }
}

/// The kept part of a body.
pub open spec fn kept_part(b: Option<KeptBody>) -> Option<(Seq<u8>, bool)> {
    match b {
        Some(b) => Some((b.bytes@, b.truncated)),
        None => None,
    }
}

/// Cuts the body of a failed request to what is kept. `None` stands for a body that could
/// not be collected.
pub fn cap_body(body: Option<Vec<u8>>) -> (r: Option<KeptBody>)
    ensures
        kept_part(r) == kept_body(opt_bytes(body)),
{
    match body {
        Some(bytes) => {
            if bytes.len() == 0 {
                None
            } else if bytes.len() > BAD_RESPONSE_BODY_CAP {
                let kept = slice_between(bytes.as_slice(), 0, BAD_RESPONSE_BODY_CAP);
                proof {
                    assert(kept@ =~= bytes@.take(BAD_RESPONSE_BODY_CAP as int));
                }
                Some(KeptBody { bytes: kept, truncated: true })
            } else {
                Some(KeptBody { bytes, truncated: false })
            }
        },
        None => None,
    }
}

/// A fault that names the truncation of the body that it was read from, where it is told as a
/// text.
pub open spec fn with_truncation(fault: Fault, truncated: bool) -> Fault {
    match fault {
        Fault::BadResponse(s) => if truncated {
            Fault::BadResponse(s + " (error body truncated to 1048576 bytes)"@)
        } else {
            fault
        },
        _ => fault,
    }
}

/// What a failed request reports. `body` is the part of the body that was kept, and
/// `decompressed` what decompression made of it, if it could: a body that cannot be
/// decompressed is taken as it is.
pub open spec fn bad_response(
    status: u16,
    exception_code: Option<Seq<char>>,
    body: Option<(Seq<u8>, bool)>,
    decompressed: Option<Seq<u8>>,
) -> Fault {
    match body {
        Some((raw, truncated)) => {
            let bytes = match decompressed {
                Some(bytes) => bytes,
                None => raw,
            };
            let told = if valid_utf8(bytes) {
                text::trimmed(decode_utf8(bytes))
            } else {
                reason_text(status, exception_code)
            };
            with_truncation(reported(told, exception_code), truncated)
        },
        None => Fault::BadResponse(reason_text(status, exception_code)),
    }
}

/// The error for a failed request.
pub fn collect_bad_response(
    status: u16,
    exception_code: Option<String>,
    body: Option<KeptBody>,
    decompressed: Option<Vec<u8>>,
) -> (r: Error)
    ensures
        fault_of(r) == bad_response(
            status,
            opt_text(exception_code),
            kept_part(body),
            opt_bytes(decompressed),
        ),
{
    let kept = match body {
        Some(kept) => kept,
        None => {
            return Error::BadResponse(reason(status, exception_code));
        },
    };
    let truncated = kept.truncated;
    let bytes = match decompressed {
        Some(bytes) => bytes,
        None => kept.bytes,
    };
    let told = match text::string_from_utf8(bytes) {
        Some(s) => {
            let chars = chars_of(s.as_str());
            let tidy = text::trim(chars.as_slice());
            string_of(tidy.as_slice())
        },
        None => {
            let code = match &exception_code {
                Some(code) => Some(code.clone()),
                None => None,
            };
            reason(status, code)
        },
    };
    let error = match &exception_code {
        Some(code) => reported_error(told, Some(code.as_str())),
        None => reported_error(told, None),
    };
    match error {
        Error::BadResponse(s) => {
            let mut s = s;
            if truncated {
                s.push_str(" (error body truncated to 1048576 bytes)");
            }
            Error::BadResponse(s)
        },
        other => other,
    }
}

/// A byte that may stand in the text of a header: visible ASCII, a space or a tab.
pub open spec fn is_header_char(b: u8) -> bool {
    (32 <= b < 127) || b == 9
}

/// The text of a header value, where all its bytes may stand in one.
pub open spec fn text_of_header(value: Seq<u8>) -> Option<Seq<char>> {
    if forall|i: int| 0 <= i < value.len() ==> is_header_char(#[trigger] value[i]) {
        Some(Seq::new(value.len(), |i: int| value[i] as char))
    } else {
        None
    }
}

/// The text of a header value.
pub fn header_text(value: &[u8]) -> (r: Option<String>)
    ensures
        opt_text(r) == text_of_header(value@),
{
    let mut out = String::new();
    let ghost all = Seq::new(value@.len(), |i: int| value@[i] as char);
    let mut i: usize = 0;
    while i < value.len()
        invariant
            i <= value@.len(),
            all == Seq::new(value@.len(), |i: int| value@[i] as char),
            out@ == all.take(i as int),
            forall|j: int| 0 <= j < i ==> is_header_char(#[trigger] value@[j]),
        decreases value@.len() - i,
    {
        let b: u8 = value[i];
        if !((32 <= b && b < 127) || b == 9) {
            proof {
                assert(!is_header_char(value@[i as int]));
            }
            return None;
        }
        out.push(b as char);
        proof {
            assert(all.take(i + 1) =~= all.take(i as int).push(all[i as int]));
        }
        i += 1;
    }
    proof {
        assert(all.take(i as int) =~= all);
    }
    Some(out)
}

/// The headers of a response that decide what becomes of it.
pub struct ResponseHeaders {
    /// `X-ClickHouse-Exception-Code`
    pub exception_code: Option<Vec<u8>>,
    /// `X-ClickHouse-Exception-Tag`
    pub exception_tag: Option<Vec<u8>>,
    /// `X-ClickHouse-Summary`
    pub summary: Option<Vec<u8>>,
}

/// What becomes of a response once its headers are there.
pub enum ResponseHead {
    /// The body is streamed. It can still end in an exception.
    Stream { chunks: Chunks, summary: Option<String> },
    /// The request failed; the body says why.
    Failed { exception_code: Option<String> },
}

/// The text of a header, where it is there and is a text.
pub open spec fn header_value(value: Option<Vec<u8>>) -> Option<Seq<char>> {
    match value {
        Some(bytes) => text_of_header(bytes@),
        None => None,
    }
}

/// Decides what becomes of a response. It is streamed where its status is 200 and no header
/// names an exception.
pub fn collect_response(status: u16, headers: ResponseHeaders) -> (r: ResponseHead)
    ensures
        status == 200 && headers.exception_code is None ==> (r matches ResponseHead::Stream {
            chunks,
            summary,
        } && chunks.open && chunks.exception_tag == headers.exception_tag && opt_text(summary)
            == header_value(headers.summary)),
        !(status == 200 && headers.exception_code is None) ==> (r matches ResponseHead::Failed {
            exception_code,
        } && opt_text(exception_code) == (match header_value(headers.exception_code) {
            Some(code) => Some("Code: "@ + code),
            None => None,
        })),
{
    if status == 200 && headers.exception_code.is_none() {
        let summary = match &headers.summary {
            Some(bytes) => header_text(bytes.as_slice()),
            None => None,
        };
        ResponseHead::Stream { chunks: Chunks::new(headers.exception_tag), summary }
    } else {
        let code = match &headers.exception_code {
            Some(bytes) => header_text(bytes.as_slice()),
            None => None,
        };
        let exception_code = match code {
            Some(code) => {
                let mut told = "Code: ".to_owned();
                told.push_str(code.as_str());
                Some(told)
            },
            None => None,
        };
        ResponseHead::Failed { exception_code }
    }
}

/// A piece of a body, with how many bytes came over the network for it.
#[derive(Debug)]
pub struct Chunk {
    pub data: Vec<u8>,
    pub net_size: usize,
}

/// A piece of a body that is not compressed.
pub fn plain_chunk(data: Vec<u8>) -> (r: Chunk)
    ensures
        r.data == data,
        r.net_size == data@.len(),
{
    let net_size: usize = data.len();
    Chunk { data, net_size }
}

/// What polling a stream gives.
#[derive(Debug)]
pub enum Polled {
    Pending,
    Ended,
    Chunk(Chunk),
    Failed(Error),
}

/// The pieces of a body, up to the first error. Behind it, and behind the end, nothing more
/// comes.
#[derive(Debug)]
pub struct Chunks {
    pub exception_tag: Option<Vec<u8>>,
    pub open: bool,
}

/// What a stream of pieces hands on for what the body gave.
pub open spec fn handed_on(chunks: Chunks, polled: Polled, r: Polled) -> bool {
    if !chunks.open {
        r is Ended
    } else {
        match polled {
            Polled::Chunk(chunk) => match exception_in(
                chunk.data@,
                opt_bytes(chunks.exception_tag),
            ) {
                Some(fault) => r matches Polled::Failed(e) && fault_of(e) == fault,
                None => r == polled,
            },
            _ => r == polled,
        }
    }
}

impl Chunks {
    /// A stream over a body.
    pub fn new(exception_tag: Option<Vec<u8>>) -> (r: Chunks)
        ensures
            r.open,
            r.exception_tag == exception_tag,
    {
        Chunks { exception_tag, open: true }
    }

    /// A stream that gives nothing.
    pub fn empty() -> (r: Chunks)
        ensures
            !r.open,
            r.exception_tag is None,
    {
        Chunks { exception_tag: None, open: false }
    }

    /// Whether the stream has ended.
    pub fn is_terminated(&self) -> (r: bool)
        ensures
            r == !self.open,
    {
        !self.open
    }

    /// Takes what the body gave and hands it on, with an exception at the end of a piece as
    /// an error. A stream that has ended gives nothing, whatever the body gave.
    pub fn poll_next(&mut self, polled: Polled) -> (r: Polled)
        ensures
            handed_on(*old(self), polled, r),
            final(self).open == (old(self).open && (r is Pending || r is Chunk)),
            final(self).exception_tag == old(self).exception_tag,
    {
        if !self.open {
            return Polled::Ended;
        }
        let out = match polled {
            Polled::Chunk(chunk) => {
                let found = match &self.exception_tag {
                    Some(tag) => extract_exception(chunk.data.as_slice(), Some(tag.as_slice())),
                    None => extract_exception(chunk.data.as_slice(), None),
                };
                match found {
                    Some(e) => Polled::Failed(e),
                    None => Polled::Chunk(chunk),
                }
            },
            other => other,
        };
        self.open = match &out {
            Polled::Pending => true,
            Polled::Chunk(_) => true,
            _ => false,
        };
        out
    }
}

/// What reading a body to its end has come to: nothing yet, success at its end, or the
/// first error.
pub fn finish(polled: Polled) -> (r: Option<Result<()>>)
    ensures
        (match polled {
            Polled::Ended => r == Some(std::result::Result::<(), Error>::Ok(())),
            Polled::Failed(e) => r == Some(std::result::Result::<(), Error>::Err(e)),
            _ => r is None,
        }),
{
    match polled {
        Polled::Ended => Some(Ok(())),
        Polled::Failed(e) => Some(Err(e)),
        _ => None,
    }
}

/// All bytes of a list of pieces, in order.
pub open spec fn joined(parts: Seq<Vec<u8>>) -> Seq<u8>
    decreases parts.len(),
{
    if parts.len() == 0 {
        Seq::empty()
    } else {
        joined(parts.drop_last()) + parts.last()@
    }
}

/// Puts the pieces of a body together.
pub fn collect_bytes(parts: &Vec<Vec<u8>>) -> (out: Vec<u8>)
    ensures
        out@ == joined(parts@),
{
    let mut out: Vec<u8> = Vec::new();
    let mut i: usize = 0;
    proof {
        assert(parts@.take(0) =~= Seq::empty());
    }
    while i < parts.len()
        invariant
            i <= parts@.len(),
            out@ == joined(parts@.take(i as int)),
        decreases parts@.len() - i,
    {
        proof {
            assert(parts@.take(i + 1).drop_last() =~= parts@.take(i as int));
        }
        out.extend_from_slice(parts[i].as_slice());
        i += 1;
    }
    proof {
        assert(parts@.take(i as int) =~= parts@);
    }
    out
}

} // verus!
