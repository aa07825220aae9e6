//! What holds of responses as a whole.
use vstd::prelude::*;
use vstd::utf8::*;

use crate::error::Error;
use crate::response::{self, Chunks, Fault, KeptBody, Polled};
use crate::text;

verus! {

/// An exception as a server words it.
pub open spec fn worded_exception(
    code: nat,
    message: Seq<char>,
    name: Seq<char>,
    version: Seq<char>,
) -> Seq<char> {
    "Code: "@ + text::decimal(code) + ". DB::Exception: "@ + message + ". ("@ + name
        + ") (version "@ + version + ")"@
}

/// The end of a worded exception, from the version on.
pub open spec fn worded_version(version: Seq<char>) -> Seq<char> {
    "(version "@ + version + ")"@
}

proof fn lemma_message_behind(front: Seq<char>, needle: Seq<char>, back: Seq<char>)
    requires
        needle.len() > 0,
        forall|i: int| 0 <= i < front.len() ==> front[i] != needle[0],
    ensures
        text::first_index(front + needle + back, needle, 0) == Some(front.len() as int),
{
    let s = front + needle + back;
    let k = front.len() as int;
    assert(s.subrange(k, k + needle.len()) =~= needle);
    assert forall|j: int| 0 <= j < k implies !text::occurs_at(s, needle, j) by {
        if text::occurs_at(s, needle, j) {
            assert(s.subrange(j, j + needle.len())[0] == s[j]);
            assert(s[j] == front[j]);
        }
    }
    text::lemma_first_index_is(s, needle, 0, k);
}

proof fn lemma_worded_code(code: nat, rest: Seq<char>)
    requires
        code <= u32::MAX,
    ensures
        response::code_in_body("Code: "@ + text::decimal(code) + ". "@ + rest) == Some(code),
{
    let body = "Code: "@ + text::decimal(code) + ". "@ + rest;
    let digits = text::decimal(code);
    text::decimal_reads_back(code);
    reveal_strlit(". ");
    assert(body.subrange(0, "Code: "@.len() as int) =~= "Code: "@);
    let behind = body.skip("Code: "@.len() as int);
    let back = seq![' '] + rest;
    assert(behind =~= digits + seq!['.'] + back);
    assert forall|i: int| 0 <= i < digits.len() implies digits[i] != seq!['.'][0] by {
        assert(text::is_digit(digits[i]));
    }
    lemma_message_behind(digits, seq!['.'], back);
    assert(behind.take(digits.len() as int) =~= digits);
    assert(text::is_digit(digits[0]));
    assert(text::is_digit(digits[digits.len() - 1]));
    text::lemma_trimmed_already(digits);
}

proof fn lemma_trim_two(s: Seq<char>, set: Seq<char>, a: char, b: char)
    requires
        set.contains(a),
        set.contains(b),
        s.len() > 0,
        !set.contains(s.last()),
    ensures
        text::trimmed_end_of(s.push(a).push(b), set) == s,
        text::trimmed_end_of(s.push(a), set) == s,
{
    reveal_with_fuel(text::trimmed_end_of, 4);
    assert(s.push(a).push(b).drop_last() =~= s.push(a));
    assert(s.push(a).drop_last() =~= s);
}

proof fn lemma_worded_tail(message: Seq<char>, name: Seq<char>, version: Seq<char>)
    requires
        message.len() > 0,
        !text::is_white(message.last()),
        message.last() != ':' && message.last() != '.' && message.last() != ',',
        response::is_exception_name(name),
        forall|j: int| 0 < j ==> !text::occurs_at(worded_version(version), "(version "@, j),
    ensures
        ({
            let s = message + ". ("@ + name + ") "@ + worded_version(version);
            response::name_at_end(response::without_version(s)) == Some((message, name))
        }),
{
    reveal_strlit("(version ");
    reveal_strlit(". (");
    reveal_strlit(") ");
    reveal_strlit(")");
    let front = message + ". ("@ + name + ") "@;
    let tail = worded_version(version);
    let s = front + tail;
    assert(message + ". ("@ + name + ") "@ + worded_version(version) == s);
    let p = front.len() as int;
    let needle = "(version "@;
    assert(s.subrange(p, p + needle.len()) =~= needle);
    assert forall|j: int| p < j <= s.len() implies !text::occurs_at(s, needle, j) by {
        if text::occurs_at(s, needle, j) {
            assert(tail.subrange(j - p, j - p + needle.len()) =~= s.subrange(j, j + needle.len()));
            assert(text::occurs_at(tail, needle, j - p));
        }
    }
    text::lemma_last_index_is(s, needle, s.len() as int, p);
    assert(s.take(p) =~= front);
    let d = message + ". ("@ + name + seq![')'];
    assert(front =~= d.push(' '));
    let set = seq![' ', '.', ','];
    assert(set[0] == ' ');
    assert(!set.contains(')'));
    lemma_trim_two(d, set, ' ', ' ');
    assert(response::without_version(s) == d);
    let q = message.len() as int + 2;
    let open = seq!['('];
    assert(d[q] == '(');
    assert(d.subrange(q, q + 1) =~= open);
    assert forall|j: int| q < j <= d.len() implies !text::occurs_at(d, open, j) by {
        if text::occurs_at(d, open, j) {
            assert(d.subrange(j, j + 1)[0] == d[j]);
            assert(open[0] == '(');
            if j < d.len() - 1 {
                assert(d[j] == name[j - q - 1]);
                assert(response::is_name_char(name[j - q - 1]));
            }
        }
    }
    text::lemma_last_index_is(d, open, d.len() as int, q);
    assert(d.subrange(q + 1, d.len() - 1) =~= name);
    assert(d.take(q) =~= message.push('.').push(' '));
    let ends = seq![':', ' ', '.', ','];
    assert(ends[1] == ' ' && ends[2] == '.');
    assert(!ends.contains(message.last()));
    lemma_trim_two(message, ends, '.', ' ');
}

/// An exception that a server words in the usual way is taken apart into its code, its name
/// and its message. The message must not be empty, must not itself name a stack trace, and
/// must not start or end in a way that is trimmed off.
pub proof fn worded_exceptions_read_back(
    code: nat,
    message: Seq<char>,
    name: Seq<char>,
    version: Seq<char>,
)
    requires
        code <= u32::MAX,
        message.len() > 0,
        !text::is_white(message[0]),
        !text::is_white(message.last()),
        message.last() != ':' && message.last() != '.' && message.last() != ',',
        text::first_index(message, "Stack trace:"@, 0) is None,
        response::is_exception_name(name),
        forall|j: int| 0 < j ==> !text::occurs_at(worded_version(version), "(version "@, j),
    ensures
        response::server_exception(worded_exception(code, message, name, version), None) == Some(
            Fault::Exception { code: code as u32, name: Some(name), message, stack_trace: None },
        ),
{
    reveal_strlit("Code: ");
    reveal_strlit(". DB::Exception: ");
    reveal_strlit(". ");
    reveal_strlit("Exception: ");
    reveal_strlit(". (");
    reveal_strlit(") ");
    reveal_strlit(") (version ");
    reveal_strlit("(version ");
    reveal_strlit(")");
    let body = worded_exception(code, message, name, version);
    let digits = text::decimal(code);
    let told = message + ". ("@ + name + ") "@ + worded_version(version);
    let rest = seq!['D', 'B', ':', ':'] + "Exception: "@ + told;
    assert(body =~= "Code: "@ + digits + ". "@ + rest);
    lemma_worded_code(code, rest);
    let front = "Code: "@ + digits + ". "@ + seq!['D', 'B', ':', ':'];
    assert(body =~= front + "Exception: "@ + told);
    text::decimal_reads_back(code);
    assert forall|i: int| 0 <= i < front.len() implies front[i] != "Exception: "@[0] by {
        if 6 <= i < 6 + digits.len() {
            assert(front[i] == digits[i - 6]);
            assert(text::is_digit(digits[i - 6]));
        }
    }
    lemma_message_behind(front, "Exception: "@, told);
    assert(body.skip(front.len() as int + "Exception: "@.len()) =~= told);
    assert(told[0] == message[0]);
    assert(told.last() == ')');
    text::lemma_trimmed_already(told);
    lemma_worded_tail(message, name, version);
    text::lemma_trimmed_already(message);
}

/// The end of a stream as newer servers write it after `data`: the message with a line
/// feed, its length, the tag and a mark.
pub open spec fn tagged_exception(data: Seq<u8>, message: Seq<u8>, tag: Seq<u8>) -> Seq<u8> {
    data + message + response::ascii("\n"@) + response::ascii(text::decimal(message.len() + 1))
        + response::ascii(" "@) + tag + response::ascii("\r\n__exception__\r\n"@)
}

proof fn lemma_digits_are_a_length(n: nat)
    requires
        n <= usize::MAX,
    ensures
        response::message_length(response::ascii(text::decimal(n))) == Ok::<nat, Fault>(n),
{
    let digits = text::decimal(n);
    text::decimal_reads_back(n);
    assert(is_ascii_chars(digits)) by {
        assert forall|i: int| 0 <= i < digits.len() implies '\0' <= #[trigger] digits[i]
            <= '\u{7f}' by {
            assert(text::is_digit(digits[i]));
        }
    }
    is_ascii_chars_encode_utf8(digits);
    assert(encode_utf8(digits) =~= response::ascii(digits));
    encode_utf8_valid_utf8(digits);
    encode_utf8_decode_utf8(digits);
}

proof fn lemma_in_front_of(front: Seq<u8>, suffix: Seq<u8>)
    ensures
        response::in_front_of(front + suffix, suffix) == Some(front),
{
    let s = front + suffix;
    assert(s.subrange(s.len() - suffix.len(), s.len() as int) =~= suffix);
    assert(s.take(s.len() - suffix.len()) =~= front);
}

/// An exception that a newer server writes at the end of a stream is found, whatever data
/// stands in front of it and whatever the message holds.
pub proof fn tagged_exceptions_are_found(data: Seq<u8>, message: Seq<u8>, tag: Seq<u8>)
    requires
        message.len() + 1 <= usize::MAX,
    ensures
        response::exception_in(tagged_exception(data, message, tag), Some(tag)) == Some(
            response::reported(
                text::trimmed(response::message_text(message + response::ascii("\n"@))),
                None,
            ),
        ),
{
    reveal_strlit("\n");
    reveal_strlit(" ");
    reveal_strlit("\r\n__exception__\r\n");
    reveal_strlit("__exception__\r\n");
    let chunk = tagged_exception(data, message, tag);
    let feed = response::ascii("\n"@);
    let space = response::ascii(" "@);
    let mark = response::ascii("\r\n__exception__\r\n"@);
    let short = response::ascii("__exception__\r\n"@);
    let n = message.len() + 1;
    let digits = response::ascii(text::decimal(n));
    let rem = data + message + feed + digits;
    let crlf = seq![13u8, 10u8];
    assert(mark =~= crlf + short);
    assert(chunk =~= (rem + space + tag + crlf) + short);
    lemma_in_front_of(rem + space + tag + crlf, short);
    assert(chunk =~= (rem + space + tag) + mark);
    lemma_in_front_of(rem + space + tag, mark);
    lemma_in_front_of(rem + space, tag);
    lemma_in_front_of(rem, space);
    let k = (data + message).len() as int;
    assert(feed.len() == 1 && feed[0] == 10u8);
    assert(rem.subrange(k, k + 1) =~= feed);
    text::decimal_reads_back(n);
    assert forall|j: int| k < j <= rem.len() implies !text::occurs_at(rem, feed, j) by {
        if text::occurs_at(rem, feed, j) {
            assert(rem.subrange(j, j + 1)[0] == rem[j]);
            assert(rem[j] == digits[j - k - 1]);
            assert(text::is_digit(text::decimal(n)[j - k - 1]));
        }
    }
    text::lemma_last_index_is(rem, feed, rem.len() as int, k);
    assert(rem.skip(k + 1) =~= digits);
    lemma_digits_are_a_length(n);
    assert(rem.subrange(k + 1 - n, k + 1) =~= message + feed);
}

/// Behind the end of a stream, and behind an error, nothing more comes: whatever the body
/// gives then, the stream stays ended.
pub proof fn ended_streams_stay_ended(
    before: Chunks,
    polled: Polled,
    given: Polled,
    after: Chunks,
    next: Polled,
    then_given: Polled,
)
    requires
        response::handed_on(before, polled, given),
        after.open == (before.open && (given is Pending || given is Chunk)),
        given is Ended || given is Failed,
        response::handed_on(after, next, then_given),
    ensures
        then_given is Ended,
        !after.open,
{
}

/// The code in the header of a response goes before the one in its body: it is the code of the
/// exception whatever the body says, with `Code: ` before it or alone.
pub proof fn header_codes_go_first(code: nat, body: Seq<char>)
    requires
        code <= u32::MAX,
    ensures
        response::exception_code(body, Some(text::decimal(code))) == Some(code),
        response::exception_code(body, Some("Code: "@ + text::decimal(code))) == Some(code),
{
    reveal_strlit("Code: ");
    let digits = text::decimal(code);
    let told = "Code: "@ + digits;
    text::decimal_reads_back(code);
    assert(text::is_digit(digits[0]));
    assert(text::is_digit(digits[digits.len() - 1]));
    text::lemma_trimmed_already(digits);
    if text::occurs_at(digits, "Code: "@, 0) {
        assert(digits.subrange(0, 6)[0] == digits[0]);
        assert("Code: "@[0] == 'C');
    }
    assert(told[0] == 'C');
    assert(told.last() == digits.last());
    text::lemma_trimmed_already(told);
    assert(told.subrange(0, 6) =~= "Code: "@);
    assert(told.skip(6) =~= digits);
}

/// A body whose code cannot be told is no exception of the server but a bad response with that very
/// text.
pub proof fn untold_codes_are_bad_responses(body: Seq<char>, header: Option<Seq<char>>)
    requires
        response::exception_code(body, header) is None,
    ensures
        response::reported(body, header) == Fault::BadResponse(body),
{
}

/// What is reported is an exception with the code that was told, or the text as it is; nothing else
/// comes of a text.
pub proof fn reports_keep_the_code(body: Seq<char>, header: Option<Seq<char>>)
    ensures
        match response::reported(body, header) {
            Fault::Exception { code, message, .. } => response::exception_code(body, header) == Some(
                code as nat,
            ) && message.len() > 0,
            Fault::BadResponse(s) => s == body,
            _ => false,
        },
{
    if let Some(code) = response::exception_code(body, header) {
        lemma_code_bound(body, header);
    }
}

proof fn lemma_code_bound(body: Seq<char>, header: Option<Seq<char>>)
    ensures
        response::exception_code(body, header) matches Some(code) ==> code <= u32::MAX,
{
}

/// A stack trace is told apart from the message in front of it.
pub proof fn stack_traces_are_told_apart(message: Seq<char>, trace: Seq<char>)
    requires
        message.len() > 0,
        !text::is_white(message.last()),
        trace.len() > 0,
        !text::is_white(trace[0]),
        !text::is_white(trace.last()),
        text::first_index(message + "Stack trace:"@ + trace, "Stack trace:"@, 0) == Some(
            message.len() as int,
        ),
    ensures
        response::trace_split(message + "Stack trace:"@ + trace) == (message, Some(trace)),
{
    let s = message + "Stack trace:"@ + trace;
    let n = "Stack trace:"@.len() as int;
    assert(s.take(message.len() as int) =~= message);
    assert(s.skip(message.len() + n) =~= trace);
    assert(text::trimmed_end(message) == message);
    text::lemma_trimmed_already(trace);
}

/// Data that does not end in the mark of an exception is data, whatever it holds.
pub proof fn plain_data_is_no_exception(chunk: Seq<u8>, tag: Option<Seq<u8>>)
    requires
        response::in_front_of(chunk, response::ascii("__exception__\r\n"@)) is None,
        response::in_front_of(chunk, response::ascii("))\n"@)) is None,
    ensures
        response::exception_in(chunk, tag) is None,
{
}

/// An exception that an older server writes at the end of a stream is found, whatever data stands in
/// front of it: it starts with the last `Code:`, names itself, and ends with two brackets and a line
/// feed.
pub proof fn untagged_exceptions_are_found(data: Seq<u8>, message: Seq<u8>)
    requires
        message.len() >= 2,
        text::occurs_at(message, response::ascii("Code:"@), 0),
        forall|j: int| 0 < j ==> !text::occurs_at(
            message.push(10u8),
            response::ascii("Code:"@),
            j,
        ),
        text::first_index(message, response::ascii("DB::"@), 0) is Some,
        text::first_index(message, response::ascii("Exception:"@), 0) is Some,
        response::in_front_of(message, response::ascii("))"@)) is Some,
    ensures
        response::exception_in(data + message.push(10u8), None) == Some(
            response::reported(response::message_text(message), None),
        ),
{
    reveal_strlit("))\n");
    reveal_strlit("))");
    reveal_strlit("Code:");
    let chunk = data + message.push(10u8);
    let body = message.push(10u8);
    let k = data.len() as int;
    let code = response::ascii("Code:"@);
    let end = response::ascii("))\n"@);
    let pair = response::ascii("))"@);
    assert(end =~= pair.push(10u8));
    let m = message.len() as int;
    assert(message.subrange(m - 2, m) == pair);
    assert(chunk.subrange(chunk.len() - 3, chunk.len() as int) =~= end) by {
        assert(pair =~= message.subrange(m - 2, m));
        assert(pair[0] == message[m - 2] && pair[1] == message[m - 1]);
    }
    assert(chunk.subrange(k, k + code.len()) =~= message.subrange(0, code.len() as int));
    assert forall|j: int| k < j <= chunk.len() implies !text::occurs_at(chunk, code, j) by {
        if text::occurs_at(chunk, code, j) {
            assert(body.subrange(j - k, j - k + code.len()) =~= chunk.subrange(j, j + code.len()));
            assert(text::occurs_at(body, code, j - k));
        }
    }
    text::lemma_last_index_is(chunk, code, chunk.len() as int, k);
    assert(chunk.skip(k) =~= body);
    lemma_still_found(message, response::ascii("DB::"@), 10u8);
    lemma_still_found(message, response::ascii("Exception:"@), 10u8);
    assert(chunk.subrange(k, chunk.len() - 1) =~= message);
}

proof fn lemma_still_found(s: Seq<u8>, needle: Seq<u8>, b: u8)
    requires
        text::first_index(s, needle, 0) is Some,
    ensures
        text::first_index(s.push(b), needle, 0) is Some,
{
    text::lemma_first_index(s, needle, 0);
    let i = text::first_index(s, needle, 0)->0;
    assert(s.push(b).subrange(i, i + needle.len()) =~= s.subrange(i, i + needle.len()));
    text::lemma_first_index(s.push(b), needle, 0);
    assert(text::occurs_at(s.push(b), needle, i));
}

/// A stream hands its pieces on as they come, its errors too; a piece that ends in an exception is
/// handed on as that error in its place.
pub proof fn pieces_are_handed_on_as_they_are(chunks: Chunks, polled: Polled, given: Polled)
    requires
        chunks.open,
        response::handed_on(chunks, polled, given),
    ensures
        polled matches Polled::Chunk(chunk) ==> match response::exception_in(
            chunk.data@,
            response::opt_bytes(chunks.exception_tag),
        ) {
            None => given == polled,
            Some(fault) => given matches Polled::Failed(e) && response::fault_of(e) == fault,
        },
        !(polled is Chunk) ==> given == polled,
        given is Chunk ==> given == polled,
{
}

/// What an error reports tells it apart from any other: its code, its name, its message and its trace.
pub proof fn reports_tell_errors_apart(a: Error, b: Error)
    requires
        response::fault_of(a) == response::fault_of(b),
    ensures
        a matches Error::ServerException { code, name, message, stack_trace } ==> (
        b matches Error::ServerException { code: c, name: n, message: m, stack_trace: t } && code
            == c && message@ == m@ && response::opt_text(name) == response::opt_text(n)
            && response::opt_text(stack_trace) == response::opt_text(t)),
        a matches Error::BadResponse(s) ==> (b matches Error::BadResponse(t) && s@ == t@),
        a matches Error::Other(s) ==> (b matches Error::Other(t) && s@ == t@),
{
}

/// Of the body of a failed request the first 1048576 bytes are kept, and all of it where it is no
/// longer; that bytes are missing is told exactly where some are.
pub proof fn bodies_are_kept_up_to_a_limit(body: Seq<u8>)
    ensures
        response::kept_body(None) is None,
        body.len() == 0 ==> response::kept_body(Some(body)) is None,
        body.len() > 0 ==> (response::kept_body(Some(body)) matches Some((kept, cut))
            && kept.is_prefix_of(body) && kept.len() == (if body.len() <= 1048576 {
            body.len()
        } else {
            1048576
        }) && (cut <==> kept.len() < body.len())),
{
    if body.len() > 0 {
        let (kept, cut) = response::kept_body(Some(body))->0;
        assert(kept =~= body.subrange(0, kept.len() as int));
    }
}

/// A failed request without a body reports the code of its header, or else its status.
pub proof fn bare_failures_report_their_status(
    status: u16,
    code: Option<Seq<char>>,
    unpacked: Option<Seq<u8>>,
)
    ensures
        response::bad_response(status, code, None, unpacked) == Fault::BadResponse(
            match code {
                Some(c) => c,
                None => text::decimal(status as nat) + " "@ + match response::reason_phrase(status) {
                    Some(phrase) => phrase,
                    None => "<unknown>"@,
                },
            },
        ),
{
}

/// A failed request with a readable body reports what the body says: the exception that it describes,
/// or its text. What decompression made of the body goes before the body itself.
pub proof fn failures_report_their_body(
    status: u16,
    code: Option<Seq<char>>,
    raw: Seq<u8>,
    cut: bool,
    unpacked: Option<Seq<u8>>,
)
    requires
        valid_utf8(match unpacked {
            Some(bytes) => bytes,
            None => raw,
        }),
    ensures
        ({
            let said = text::trimmed(
                decode_utf8(
                    match unpacked {
                        Some(bytes) => bytes,
                        None => raw,
                    },
                ),
            );
            match response::bad_response(status, code, Some((raw, cut)), unpacked) {
                Fault::BadResponse(s) => response::server_exception(said, code) is None && s == if cut {
                    said + " (error body truncated to 1048576 bytes)"@
                } else {
                    said
                },
                fault => response::server_exception(said, code) == Some(fault),
            }
        }),
{
}

/// A failed request whose body is no text reports what it would without one, with the code of the
/// header where there is one.
pub proof fn unreadable_bodies_report_the_status(
    status: u16,
    code: Option<Seq<char>>,
    raw: Seq<u8>,
    unpacked: Seq<u8>,
)
    requires
        !valid_utf8(unpacked),
    ensures
        response::bad_response(status, code, Some((raw, false)), Some(unpacked))
            == response::reported(response::reason_text(status, code), code),
        response::bad_response(status, code, Some((unpacked, false)), None)
            == response::reported(response::reason_text(status, code), code),
{
}

/// The pieces of a body make up the body, in their order.
pub proof fn pieces_make_up_the_body(front: Seq<Vec<u8>>, piece: Vec<u8>)
    ensures
        response::joined(Seq::empty()) == Seq::<u8>::empty(),
        response::joined(front.push(piece)) == response::joined(front) + piece@,
{
    assert(front.push(piece).drop_last() =~= front);
}

/// A header whose bytes are all visible is read as those characters, and one with any other byte is
/// not read at all.
pub proof fn headers_are_visible_text(value: Seq<u8>, i: int)
    requires
        0 <= i < value.len(),
    ensures
        response::text_of_header(value) matches Some(s) ==> s.len() == value.len() && s[i]
            == value[i] as char && (32 <= value[i] <= 126 || value[i] == 9),
        !(32 <= value[i] <= 126 || value[i] == 9) ==> response::text_of_header(value) is None,
        (forall|j: int| 0 <= j < value.len() ==> 32 <= #[trigger] value[j] <= 126)
            ==> response::text_of_header(value) is Some,
{
    if !(32 <= value[i] <= 126 || value[i] == 9) {
        assert(!response::is_header_char(value[i]));
    }
    if response::text_of_header(value) is Some {
        assert(response::is_header_char(value[i]));
    }
}

/// The name of an exception is made of capitals, digits and underscores.
pub proof fn exception_names_are_capitals(s: Seq<char>)
    ensures
        response::is_exception_name(s) <==> s.len() > 0 && forall|i: int|
            0 <= i < s.len() ==> ('A' <= #[trigger] s[i] <= 'Z' || '0' <= s[i] <= '9' || s[i] == '_'),
{
    if s.len() > 0 && (forall|i: int|
        0 <= i < s.len() ==> ('A' <= #[trigger] s[i] <= 'Z' || '0' <= s[i] <= '9' || s[i] == '_')) {
        assert forall|i: int| 0 <= i < s.len() implies response::is_name_char(#[trigger] s[i]) by {}
    }
    if response::is_exception_name(s) {
        assert forall|i: int| 0 <= i < s.len() implies ('A' <= #[trigger] s[i] <= 'Z' || '0' <= s[i]
            <= '9' || s[i] == '_') by {
            assert(response::is_name_char(s[i]));
        }
    }
}

/// What stands in front of an ending, or behind a beginning, is the rest of the whole.
pub proof fn parts_make_up_the_whole(bytes: Seq<u8>, end: Seq<u8>, s: Seq<char>, start: Seq<char>)
    ensures
        response::in_front_of(bytes, end) matches Some(front) ==> bytes == front + end,
        response::in_front_of(bytes + end, end) == Some(bytes),
        response::behind(s, start) matches Some(rest) ==> s == start + rest,
        response::behind(start + s, start) == Some(s),
{
    lemma_in_front_of(bytes, end);
    if let Some(front) = response::in_front_of(bytes, end) {
        assert(bytes =~= front + bytes.subrange(bytes.len() - end.len(), bytes.len() as int));
    }
    let n = start.len() as int;
    assert((start + s).subrange(0, n) =~= start);
    assert((start + s).skip(n) =~= s);
    if let Some(rest) = response::behind(s, start) {
        assert(s =~= s.subrange(0, n) + rest);
    }
}

/// A text in ASCII has a byte for each character: the one that encodes it.
pub proof fn ascii_is_its_encoding(s: Seq<char>)
    requires
        is_ascii_chars(s),
    ensures
        response::ascii(s) == encode_utf8(s),
{
    is_ascii_chars_encode_utf8(s);
    assert(encode_utf8(s) =~= response::ascii(s));
}

/// A mark without a tag that was announced is looked for in the older form alone.
pub proof fn tags_have_to_be_announced(chunk: Seq<u8>)
    ensures
        response::exception_in(chunk, None) == if response::in_front_of(
            chunk,
            response::ascii("))\n"@),
        ) is Some {
            response::old_exception(chunk)
        } else {
            None
        },
{
}

/// A header that tells no code leaves it to the body.
pub proof fn headers_without_a_code_leave_it_to_the_body(header: Seq<char>, body: Seq<char>)
    requires
        forall|i: int| 0 <= i < header.len() ==> !text::is_digit(#[trigger] header[i]),
    ensures
        response::exception_code(body, Some(header)) == response::exception_code(body, None),
{
    let t = text::trimmed(header);
    text::trimming_leaves_no_white_space(header);
    let (i, j) = choose|i: int, j: int|
        0 <= i <= j <= header.len() && t == #[trigger] header.subrange(i, j) && (forall|k: int|
            0 <= k < i || j <= k < header.len() ==> text::is_white(#[trigger] header[k]));
    assert forall|k: int| 0 <= k < t.len() implies !text::is_digit(#[trigger] t[k]) by {
        assert(t[k] == header[i + k]);
    }
    lemma_no_number(header);
    if let Some(rest) = response::behind(t, "Code: "@) {
        assert forall|k: int| 0 <= k < rest.len() implies !text::is_digit(#[trigger] rest[k]) by {
            assert(rest[k] == t[k + "Code: "@.len()]);
        }
        lemma_no_number(rest);
    }
}

proof fn lemma_no_number(s: Seq<char>)
    requires
        forall|i: int| 0 <= i < s.len() ==> !text::is_digit(#[trigger] s[i]),
    ensures
        text::parsed_uint(s, u32::MAX as nat) is None,
{
    let digits = if s.len() > 0 && s[0] == '+' {
        s.skip(1)
    } else {
        s
    };
    if digits.len() > 0 && text::all_digits(digits) {
        assert(text::is_digit(digits[digits.len() - 1]));
        assert(digits[digits.len() - 1] == s[s.len() - 1]);
    }
}

/// A tag that was found is never passed over: where the length in front of it cannot be right, that is
/// what is reported.
pub proof fn wrong_lengths_are_reported(chunk: Seq<u8>, tag: Seq<u8>, rem: Seq<u8>, i: int)
    requires
        response::before_tag(chunk, tag) == Some(rem),
        text::last_index(rem, response::ascii("\n"@), rem.len() as int) == Some(i),
    ensures
        response::message_length(rem.skip(i + 1)) matches Err(fault) ==> response::new_exception(
            chunk,
            tag,
        ) == Some(fault),
        response::message_length(rem.skip(i + 1)) matches Ok(len) ==> (len > i + 1
            ==> response::new_exception(chunk, tag) matches Some(Fault::Other(_))),
        response::new_exception(chunk, tag) is Some,
{
}

/// The parts of a response stand for what they hold.
pub proof fn parts_of_responses_mean_themselves(bytes: Vec<u8>, kept: KeptBody, s: String)
    ensures
        response::opt_bytes(Some(bytes)) == Some(bytes@) && response::opt_bytes(None) is None,
        response::kept_part(Some(kept)) == Some((kept.bytes@, kept.truncated)),
        response::kept_part(None) is None,
        response::opt_text(Some(s)) == Some(s@) && response::opt_text(None) is None,
        response::header_value(Some(bytes)) == response::text_of_header(bytes@),
        response::header_value(None) is None,
{
}

/// A message that is encoded as it should be is told as it was written.
pub proof fn encoded_messages_are_told_as_written(message: Seq<char>)
    ensures
        response::message_text(encode_utf8(message)) == message,
{
    encode_utf8_valid_utf8(message);
    encode_utf8_decode_utf8(message);
}

} // verus!
