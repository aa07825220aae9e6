//! Text as sequences of characters: building strings, numbers in decimal,
//! searching and trimming.
use vstd::prelude::*;
use vstd::utf8::*;

verus! {

/// `String::push` of std appends one character.
pub assume_specification[ std::string::String::push ](s: &mut std::string::String, c: char)
    ensures
        final(s)@ == old(s)@.push(c),
;

/// `String::push_str` of std appends the characters of the slice.
pub assume_specification[ std::string::String::push_str ](s: &mut std::string::String, other: &str)
    ensures
        final(s)@ == old(s)@ + other@,
;

/// `String::from_utf8` of std: the text that the bytes encode, or nothing where they are
/// not valid UTF-8.
#[verifier::external_body]
pub(crate) fn string_from_utf8(bytes: Vec<u8>) -> (r: Option<String>)
    ensures
        r is Some <==> valid_utf8(bytes@),
        r matches Some(s) ==> s@ == decode_utf8(bytes@),
{
    String::from_utf8(bytes).ok()
}

/// A text as std writes it for debugging: in double quotes, with special characters
/// escaped.
pub uninterp spec fn debug_form(s: Seq<char>) -> Seq<char>;

/// `fmt::Debug` of `str`, through `format!` of std.
#[verifier::external_body]
pub(crate) fn debug_text(s: &str) -> (out: String)
    ensures
        out@ == debug_form(s@),
{
    format!("{s:?}")
}

/// The character of a decimal digit.
pub open spec fn digit_char(d: nat) -> char {
    ((48 + d) as u8) as char
}

/// A character is one of `0` to `9`.
pub open spec fn is_digit(c: char) -> bool {
    '0' <= c <= '9'
}

/// The value of a decimal digit.
pub open spec fn digit_value(c: char) -> nat {
    (c as u32 - 48) as nat
}

/// A number in decimal, without leading zeros.
pub open spec fn decimal(n: nat) -> Seq<char>
    decreases n,
{
    if n < 10 {
        seq![digit_char(n)]
    } else {
        decimal(n / 10).push(digit_char(n % 10))
    }
}

/// All characters of a sequence are decimal digits.
pub open spec fn all_digits(s: Seq<char>) -> bool {
    forall|i: int| 0 <= i < s.len() ==> is_digit(#[trigger] s[i])
}

/// The number that a sequence of digits stands for.
pub open spec fn digits_value(s: Seq<char>) -> nat
    decreases s.len(),
{
    if s.len() == 0 {
        0
    } else {
        digits_value(s.drop_last()) * 10 + digit_value(s.last())
    }
}

/// What reading an unsigned number in decimal gives: an optional plus sign, then at
/// least one digit and nothing else, with a value of at most `max`.
pub open spec fn parsed_uint(s: Seq<char>, max: nat) -> Option<nat> {
    let digits = if s.len() > 0 && s[0] == '+' {
        s.skip(1)
    } else {
        s
    };
    if digits.len() > 0 && all_digits(digits) && digits_value(digits) <= max {
        Some(digits_value(digits))
    } else {
        None
    }
}

/// A longer number is no smaller.
pub proof fn lemma_digits_value_grows(s: Seq<char>, k: int)
    requires
        0 <= k <= s.len(),
    ensures
        digits_value(s.take(k)) <= digits_value(s),
    decreases s.len(),
{
    if k == s.len() {
        assert(s.take(k) =~= s);
    } else {
        lemma_digits_value_grows(s.drop_last(), k);
        assert(s.drop_last().take(k) =~= s.take(k));
    }
}

/// Decimal notation reads back as the number that was written.
pub proof fn decimal_reads_back(n: nat)
    ensures
        decimal(n).len() > 0,
        all_digits(decimal(n)),
        digits_value(decimal(n)) == n,
        parsed_uint(decimal(n), n) == Some(n),
    decreases n,
{
    reveal_with_fuel(digits_value, 3);
    if n < 10 {
        assert(decimal(n).drop_last() =~= Seq::<char>::empty());
    } else {
        decimal_reads_back(n / 10);
        let s = decimal(n);
        assert(s.drop_last() =~= decimal(n / 10));
        assert forall|i: int| 0 <= i < s.len() implies is_digit(#[trigger] s[i]) by {
            if i < s.len() - 1 {
                assert(s[i] == decimal(n / 10)[i]);
            }
        }
    }
    assert(is_digit(decimal(n)[0]));
}

/// Two numbers with the same decimal notation are equal.
pub proof fn decimal_injective(a: nat, b: nat)
    requires
        decimal(a) == decimal(b),
    ensures
        a == b,
{
    decimal_reads_back(a);
    decimal_reads_back(b);
}

/// The characters of a string slice.
pub fn chars_of(s: &str) -> (out: Vec<char>)
    ensures
        out@ == s@,
{
    let mut out: Vec<char> = Vec::new();
    for c in it: s.chars()
        invariant
            it.seq() == s@,
            out@ == s@.take(it.index()),
    {
        proof {
            assert(s@.take(it.index() + 1) =~= s@.take(it.index()).push(s@[it.index()]));
        }
        out.push(c);
    }
    proof {
        assert(s@.take(s@.len() as int) =~= s@);
    }
    out
}

/// The string that holds the given characters.
pub fn string_of(chars: &[char]) -> (out: String)
    ensures
        out@ == chars@,
{
    let mut out = String::new();
    let mut i: usize = 0;
    while i < chars.len()
        invariant
            i <= chars.len(),
            out@ == chars@.take(i as int),
        decreases chars.len() - i,
    {
        proof {
            assert(chars@.take(i + 1) =~= chars@.take(i as int).push(chars@[i as int]));
        }
        out.push(chars[i]);
        i += 1;
    }
    proof {
        assert(chars@.take(i as int) =~= chars@);
    }
    out
}

/// The string that holds the characters from `from` up to `to`.
pub fn string_between(chars: &[char], from: usize, to: usize) -> (out: String)
    requires
        from <= to <= chars@.len(),
    ensures
        out@ == chars@.subrange(from as int, to as int),
{
    let mut out = String::new();
    let mut i: usize = from;
    while i < to
        invariant
            from <= i <= to <= chars@.len(),
            out@ == chars@.subrange(from as int, i as int),
        decreases to - i,
    {
        proof {
            assert(chars@.subrange(from as int, i + 1) =~= chars@.subrange(
                from as int,
                i as int,
            ).push(chars@[i as int]));
        }
        out.push(chars[i]);
        i += 1;
    }
    out
}

/// Appends a number in decimal.
pub fn push_decimal(out: &mut String, n: u64)
    ensures
        final(out)@ == old(out)@ + decimal(n as nat),
    decreases n,
{
    if n >= 10 {
        push_decimal(out, n / 10);
    }
    let d: u8 = (n % 10) as u8;
    let c: char = (48 + d) as char;
    out.push(c);
    proof {
        if n < 10 {
            assert(old(out)@ + decimal(n as nat) =~= old(out)@.push(c));
        } else {
            assert(old(out)@ + decimal(n as nat) =~= (old(out)@ + decimal((n / 10) as nat)).push(c));
        }
    }
}

/// The character of a hexadecimal digit.
pub open spec fn hex_char(d: nat) -> char {
    if d < 10 {
        ((48 + d) as u8) as char
    } else {
        ((87 + d) as u8) as char
    }
}

/// A number in hexadecimal, with lower-case letters and without leading zeros.
pub open spec fn hex(n: nat) -> Seq<char>
    decreases n,
{
    if n < 16 {
        seq![hex_char(n)]
    } else {
        hex(n / 16).push(hex_char(n % 16))
    }
}

/// A number in hexadecimal is not empty and holds digits and the letters `a` to `f` alone.
pub proof fn lemma_hex_chars(n: nat)
    ensures
        hex(n).len() > 0,
        forall|i: int|
            0 <= i < hex(n).len() ==> ('0' <= #[trigger] hex(n)[i] <= '9') || ('a' <= hex(n)[i]
                <= 'f'),
    decreases n,
{
    if n >= 16 {
        lemma_hex_chars(n / 16);
        assert forall|i: int| 0 <= i < hex(n).len() implies ('0' <= #[trigger] hex(n)[i] <= '9')
            || ('a' <= hex(n)[i] <= 'f') by {
            if i < hex(n).len() - 1 {
                assert(hex(n)[i] == hex(n / 16)[i]);
            }
        }
    }
}

/// Two numbers with the same hexadecimal notation are equal.
pub proof fn hex_injective(a: nat, b: nat)
    requires
        hex(a) == hex(b),
    ensures
        a == b,
    decreases a,
{
    lemma_hex_chars(a / 16);
    lemma_hex_chars(b / 16);
    assert(hex(a).last() == hex_char(a % 16));
    assert(hex(b).last() == hex_char(b % 16));
    assert(a % 16 == b % 16);
    if a >= 16 {
        assert(hex(a).len() > 1);
        assert(b >= 16);
        assert(hex(a).drop_last() =~= hex(a / 16));
        assert(hex(b).drop_last() =~= hex(b / 16));
        hex_injective(a / 16, b / 16);
    } else {
        assert(hex(a).len() == 1);
    }
}

/// Appends a number in hexadecimal.
pub fn push_hex(out: &mut String, n: u64)
    ensures
        final(out)@ == old(out)@ + hex(n as nat),
    decreases n,
{
    if n >= 16 {
        push_hex(out, n / 16);
    }
    let d: u8 = (n % 16) as u8;
    let c: char = if d < 10 {
        (48 + d) as char
    } else {
        (87 + d) as char
    };
    out.push(c);
    proof {
        if n < 16 {
            assert(old(out)@ + hex(n as nat) =~= old(out)@.push(c));
        } else {
            assert(old(out)@ + hex(n as nat) =~= (old(out)@ + hex((n / 16) as nat)).push(c));
        }
    }
}

/// Reads an unsigned number in decimal, as `str::parse` of std does for `u64`.
pub fn parse_u64(chars: &[char]) -> (r: Option<u64>)
    ensures
        (match r {
            Some(v) => parsed_uint(chars@, u64::MAX as nat) == Some(v as nat),
            None => parsed_uint(chars@, u64::MAX as nat) is None,
        }),
{
    let mut start: usize = 0;
    if chars.len() > 0 && chars[0] == '+' {
        start = 1;
    }
    let ghost digits = chars@.skip(start as int);
    proof {
        assert(chars@.skip(0) =~= chars@);
    }
    if start == chars.len() {
        return None;
    }
    let mut value: u64 = 0;
    let mut i: usize = start;
    while i < chars.len()
        invariant
            start <= i <= chars.len(),
            start < chars.len(),
            start == (if chars@.len() > 0 && chars@[0] == '+' { 1int } else { 0int }),
            digits == chars@.skip(start as int),
            parsed_uint(chars@, u64::MAX as nat) == (if all_digits(digits) && digits_value(digits)
                <= u64::MAX { Some(digits_value(digits)) } else { None }),
            all_digits(digits.take(i - start)),
            value == digits_value(digits.take(i - start)),
        decreases chars.len() - i,
    {
        let c = chars[i];
        let ghost k = i - start;
        proof {
            assert(digits[k] == c);
        }
        if c < '0' || c > '9' {
            return None;
        }
        let d: u64 = (c as u32 - 48) as u64;
        proof {
            assert(digits.take(k + 1).drop_last() =~= digits.take(k));
            lemma_digits_value_grows(digits, k + 1);
        }
        if value > (u64::MAX - d) / 10 {
            return None;
        }
        value = value * 10 + d;
        proof {
            assert forall|j: int| 0 <= j < k + 1 implies is_digit(#[trigger] digits.take(k + 1)[j]) by {
                if j < k {
                    assert(digits.take(k)[j] == digits[j]);
                }
            }
        }
        i += 1;
    }
    proof {
        assert(digits.take(i - start) =~= digits);
    }
    Some(value)
}

/// The characters with the Unicode property White_Space.
pub open spec fn is_white(c: char) -> bool {
    ||| '\u{9}' <= c <= '\u{d}'
    ||| c == ' '
    ||| c == '\u{85}'
    ||| c == '\u{a0}'
    ||| c == '\u{1680}'
    ||| '\u{2000}' <= c <= '\u{200a}'
    ||| c == '\u{2028}'
    ||| c == '\u{2029}'
    ||| c == '\u{202f}'
    ||| c == '\u{205f}'
    ||| c == '\u{3000}'
}

fn white(c: char) -> (r: bool)
    ensures
        r == is_white(c),
{
    ('\u{9}' <= c && c <= '\u{d}') || c == ' ' || c == '\u{85}' || c == '\u{a0}' || c == '\u{1680}'
        || ('\u{2000}' <= c && c <= '\u{200a}') || c == '\u{2028}' || c == '\u{2029}' || c
        == '\u{202f}' || c == '\u{205f}' || c == '\u{3000}'
}

/// The text without the white space that it starts with.
pub open spec fn trimmed_start(s: Seq<char>) -> Seq<char>
    decreases s.len(),
{
    if s.len() > 0 && is_white(s[0]) {
        trimmed_start(s.skip(1))
    } else {
        s
    }
}

/// The text without the white space that it ends with.
pub open spec fn trimmed_end(s: Seq<char>) -> Seq<char>
    decreases s.len(),
{
    if s.len() > 0 && is_white(s.last()) {
        trimmed_end(s.drop_last())
    } else {
        s
    }
}

/// The text without the white space around it.
pub open spec fn trimmed(s: Seq<char>) -> Seq<char> {
    trimmed_end(trimmed_start(s))
}

/// The text without the characters of `set` that it ends with.
pub open spec fn trimmed_end_of(s: Seq<char>, set: Seq<char>) -> Seq<char>
    decreases s.len(),
{
    if s.len() > 0 && set.contains(s.last()) {
        trimmed_end_of(s.drop_last(), set)
    } else {
        s
    }
}

/// Trimming leaves a text that is no longer.
pub proof fn lemma_trimmed_len(s: Seq<char>)
    ensures
        trimmed_start(s).len() <= s.len(),
        trimmed_end(s).len() <= s.len(),
    decreases s.len(),
{
    if s.len() > 0 {
        lemma_trimmed_len(s.skip(1));
        lemma_trimmed_len(s.drop_last());
    }
}

/// The characters from `from` up to `to`.
pub fn chars_between(chars: &[char], from: usize, to: usize) -> (out: Vec<char>)
    requires
        from <= to <= chars@.len(),
    ensures
        out@ == chars@.subrange(from as int, to as int),
{
    let mut out: Vec<char> = Vec::new();
    let mut i: usize = from;
    while i < to
        invariant
            from <= i <= to <= chars@.len(),
            out@ == chars@.subrange(from as int, i as int),
        decreases to - i,
    {
        proof {
            assert(chars@.subrange(from as int, i + 1) =~= chars@.subrange(
                from as int,
                i as int,
            ).push(chars@[i as int]));
        }
        out.push(chars[i]);
        i += 1;
    }
    out
}

/// Drops the white space that the text ends with.
pub fn trim_end(chars: &[char]) -> (out: Vec<char>)
    ensures
        out@ == trimmed_end(chars@),
{
    let mut end: usize = chars.len();
    proof {
        assert(chars@.take(end as int) =~= chars@);
    }
    while end > 0 && white(chars[end - 1])
        invariant
            end <= chars@.len(),
            trimmed_end(chars@) == trimmed_end(chars@.take(end as int)),
        decreases end,
    {
        proof {
            assert(chars@.take(end as int).drop_last() =~= chars@.take(end - 1));
        }
        end -= 1;
    }
    proof {
        assert(chars@.subrange(0, end as int) =~= chars@.take(end as int));
    }
    chars_between(chars, 0, end)
}

/// Drops the white space around the text.
pub fn trim(chars: &[char]) -> (out: Vec<char>)
    ensures
        out@ == trimmed(chars@),
{
    let mut start: usize = 0;
    proof {
        assert(chars@.skip(0) =~= chars@);
    }
    while start < chars.len() && white(chars[start])
        invariant
            start <= chars@.len(),
            trimmed_start(chars@) == trimmed_start(chars@.skip(start as int)),
        decreases chars@.len() - start,
    {
        proof {
            assert(chars@.skip(start as int).skip(1) =~= chars@.skip(start + 1));
        }
        start += 1;
    }
    let rest = chars_between(chars, start, chars.len());
    proof {
        assert(rest@ =~= chars@.skip(start as int));
    }
    trim_end(rest.as_slice())
}

fn one_of(c: char, set: &[char]) -> (r: bool)
    ensures
        r == set@.contains(c),
{
    let mut i: usize = 0;
    while i < set.len()
        invariant
            i <= set@.len(),
            forall|j: int| 0 <= j < i ==> set@[j] != c,
        decreases set@.len() - i,
    {
        if set[i] == c {
            return true;
        }
        i += 1;
    }
    false
}

/// Drops the characters of `set` that the text ends with.
pub fn trim_end_of(chars: &[char], set: &[char]) -> (out: Vec<char>)
    ensures
        out@ == trimmed_end_of(chars@, set@),
{
    let mut end: usize = chars.len();
    proof {
        assert(chars@.take(end as int) =~= chars@);
    }
    while end > 0 && one_of(chars[end - 1], set)
        invariant
            end <= chars@.len(),
            trimmed_end_of(chars@, set@) == trimmed_end_of(chars@.take(end as int), set@),
        decreases end,
    {
        proof {
            assert(chars@.take(end as int).drop_last() =~= chars@.take(end - 1));
        }
        end -= 1;
    }
    proof {
        assert(chars@.subrange(0, end as int) =~= chars@.take(end as int));
    }
    chars_between(chars, 0, end)
}

/// `needle` stands in `s` at position `i`.
pub open spec fn occurs_at<T>(s: Seq<T>, needle: Seq<T>, i: int) -> bool {
    0 <= i && i + needle.len() <= s.len() && s.subrange(i, i + needle.len()) == needle
}

/// The first position from `from` on at which `needle` stands in `s`.
pub open spec fn first_index<T>(s: Seq<T>, needle: Seq<T>, from: int) -> Option<int>
    decreases s.len() - from + 1,
{
    if from + needle.len() > s.len() {
        None
    } else if occurs_at(s, needle, from) {
        Some(from)
    } else {
        first_index(s, needle, from + 1)
    }
}

/// The last position up to `upto` at which `needle` stands in `s`.
pub open spec fn last_index<T>(s: Seq<T>, needle: Seq<T>, upto: int) -> Option<int>
    decreases upto + 1,
{
    if upto < 0 {
        None
    } else if occurs_at(s, needle, upto) {
        Some(upto)
    } else {
        last_index(s, needle, upto - 1)
    }
}

/// The first position found is one at which the text stands, and none before it is.
pub proof fn lemma_first_index<T>(s: Seq<T>, needle: Seq<T>, from: int)
    requires
        0 <= from,
    ensures
        (match first_index(s, needle, from) {
            Some(i) => from <= i && occurs_at(s, needle, i) && forall|j: int|
                from <= j < i ==> !occurs_at(s, needle, j),
            None => forall|j: int| from <= j ==> !occurs_at(s, needle, j),
        }),
    decreases s.len() - from + 1,
{
    if from + needle.len() <= s.len() && !occurs_at(s, needle, from) {
        lemma_first_index(s, needle, from + 1);
    }
}

/// The last position found is one at which the text stands, and none behind it is.
pub proof fn lemma_last_index<T>(s: Seq<T>, needle: Seq<T>, upto: int)
    ensures
        (match last_index(s, needle, upto) {
            Some(i) => i <= upto && occurs_at(s, needle, i) && forall|j: int|
                i < j <= upto ==> !occurs_at(s, needle, j),
            None => forall|j: int| j <= upto ==> !occurs_at(s, needle, j),
        }),
    decreases upto + 1,
{
    if upto >= 0 && !occurs_at(s, needle, upto) {
        lemma_last_index(s, needle, upto - 1);
    }
}

/// The first position is the one at which the text stands with none before it.
pub proof fn lemma_first_index_is<T>(s: Seq<T>, needle: Seq<T>, from: int, k: int)
    requires
        0 <= from <= k,
        occurs_at(s, needle, k),
        forall|j: int| from <= j < k ==> !occurs_at(s, needle, j),
    ensures
        first_index(s, needle, from) == Some(k),
    decreases k - from,
{
    if from < k {
        assert(!occurs_at(s, needle, from));
        lemma_first_index_is(s, needle, from + 1, k);
    }
}

/// The last position is the one at which the text stands with none behind it.
pub proof fn lemma_last_index_is<T>(s: Seq<T>, needle: Seq<T>, upto: int, k: int)
    requires
        0 <= k <= upto,
        occurs_at(s, needle, k),
        forall|j: int| k < j <= upto ==> !occurs_at(s, needle, j),
    ensures
        last_index(s, needle, upto) == Some(k),
    decreases upto - k,
{
    if k < upto {
        assert(!occurs_at(s, needle, upto));
        lemma_last_index_is(s, needle, upto - 1, k);
    }
}

/// A text that neither starts nor ends with white space is not changed by trimming.
pub proof fn lemma_trimmed_already(s: Seq<char>)
    requires
        s.len() > 0 ==> !is_white(s[0]) && !is_white(s.last()),
    ensures
        trimmed(s) == s,
        trimmed_end(s) == s,
{
}

/// Tests whether `needle` stands in `chars` at position `at`.
pub fn stands_at(chars: &[char], needle: &[char], at: usize) -> (r: bool)
    requires
        at <= chars@.len(),
    ensures
        r == occurs_at(chars@, needle@, at as int),
{
    if needle.len() > chars.len() - at {
        return false;
    }
    let mut i: usize = 0;
    while i < needle.len()
        invariant
            i <= needle@.len(),
            at + needle@.len() <= chars@.len() <= usize::MAX,
            forall|j: int| 0 <= j < i ==> chars@[at + j] == needle@[j],
        decreases needle@.len() - i,
    {
        if chars[at + i] != needle[i] {
            proof {
                assert(chars@.subrange(at as int, at + needle@.len())[i as int] != needle@[i as int]);
            }
            return false;
        }
        i += 1;
    }
    proof {
        assert(chars@.subrange(at as int, at + needle@.len()) =~= needle@);
    }
    true
}

/// The first position at which `needle` stands in `chars`.
pub fn find(chars: &[char], needle: &[char]) -> (r: Option<usize>)
    ensures
        (match r {
            Some(i) => first_index(chars@, needle@, 0) == Some(i as int) && i + needle@.len()
                <= chars@.len(),
            None => first_index(chars@, needle@, 0) is None,
        }),
{
    let mut i: usize = 0;
    while i <= chars.len() && needle.len() <= chars.len() - i
        invariant
            i <= chars@.len(),
            first_index(chars@, needle@, 0) == first_index(chars@, needle@, i as int),
        decreases chars@.len() - i,
    {
        if stands_at(chars, needle, i) {
            return Some(i);
        }
        if i == chars.len() {
            proof {
                assert(first_index(chars@, needle@, i + 1) is None);
            }
            return None;
        }
        i += 1;
    }
    None
}

/// The last position at which `needle` stands in `chars`.
pub fn rfind(chars: &[char], needle: &[char]) -> (r: Option<usize>)
    ensures
        (match r {
            Some(i) => last_index(chars@, needle@, chars@.len() as int) == Some(i as int) && i
                + needle@.len() <= chars@.len(),
            None => last_index(chars@, needle@, chars@.len() as int) is None,
        }),
{
    let mut i: usize = chars.len();
    loop
        invariant
            i <= chars@.len(),
            last_index(chars@, needle@, chars@.len() as int) == last_index(chars@, needle@, i as int),
        decreases i,
    {
        if stands_at(chars, needle, i) {
            return Some(i);
        }
        if i == 0 {
            proof {
                assert(last_index(chars@, needle@, -1) is None);
            }
            return None;
        }
        i -= 1;
    }
}

/// Tests whether the characters are those of `text`.
pub fn is_text(chars: &[char], text: &str) -> (r: bool)
    ensures
        r == (chars@ == text@),
{
    let other = chars_of(text);
    if chars.len() != other.len() {
        return false;
    }
    let mut i: usize = 0;
    while i < chars.len()
        invariant
            i <= chars@.len() == other@.len(),
            other@ == text@,
            forall|j: int| 0 <= j < i ==> chars@[j] == other@[j],
        decreases chars@.len() - i,
    {
        if chars[i] != other[i] {
            return false;
        }
        i += 1;
    }
    proof {
        assert(chars@ =~= other@);
    }
    true
}

/// Trimming takes white space off both ends of a text and nothing else: what is left neither starts nor
/// ends with it.
pub proof fn trimming_leaves_no_white_space(s: Seq<char>)
    ensures
        ({
            let t = trimmed(s);
            &&& t.len() > 0 ==> !is_white(t[0]) && !is_white(t.last())
            &&& exists|i: int, j: int|
                0 <= i <= j <= s.len() && t == #[trigger] s.subrange(i, j) && (forall|k: int|
                    0 <= k < i || j <= k < s.len() ==> is_white(#[trigger] s[k]))
        }),
{
    let a = trimmed_start(s);
    let i = lemma_trimmed_start(s);
    let j = i + trimmed_end(a).len();
    lemma_trimmed_end(a);
    let t = trimmed(s);
    assert(t =~= s.subrange(i, j));
    assert forall|k: int| 0 <= k < i || j <= k < s.len() implies is_white(#[trigger] s[k]) by {
        if k >= j {
            assert(a[k - i] == s[k]);
        }
    }
    if t.len() > 0 {
        assert(t[0] == a[0]);
    }
}

proof fn lemma_trimmed_start(s: Seq<char>) -> (i: int)
    ensures
        0 <= i <= s.len(),
        trimmed_start(s) == s.skip(i),
        forall|k: int| 0 <= k < i ==> is_white(#[trigger] s[k]),
        i < s.len() ==> !is_white(s[i]),
    decreases s.len(),
{
    if s.len() > 0 && is_white(s[0]) {
        let rest = s.skip(1);
        let i = lemma_trimmed_start(rest);
        assert(rest.skip(i) =~= s.skip(i + 1));
        assert forall|k: int| 0 <= k < i + 1 implies is_white(#[trigger] s[k]) by {
            if k > 0 {
                assert(rest[k - 1] == s[k]);
            }
        }
        if i < rest.len() {
            assert(rest[i] == s[i + 1]);
        }
        i + 1
    } else {
        assert(s.skip(0) =~= s);
        0
    }
}

proof fn lemma_trimmed_end(s: Seq<char>)
    ensures
        trimmed_end(s).len() <= s.len(),
        trimmed_end(s) == s.take(trimmed_end(s).len() as int),
        forall|k: int| trimmed_end(s).len() <= k < s.len() ==> is_white(#[trigger] s[k]),
        trimmed_end(s).len() > 0 ==> !is_white(trimmed_end(s).last()),
    decreases s.len(),
{
    if s.len() > 0 && is_white(s.last()) {
        let front = s.drop_last();
        lemma_trimmed_end(front);
        let n = trimmed_end(s).len() as int;
        assert(front.take(n) =~= s.take(n));
        assert forall|k: int| n <= k < s.len() implies is_white(#[trigger] s[k]) by {
            if k < front.len() {
                assert(front[k] == s[k]);
            }
        }
    } else {
        assert(s.take(s.len() as int) =~= s);
    }
}

/// Of the characters of ASCII, the space and the controls from tab to carriage return are white space.
pub proof fn white_space_in_ascii(c: char)
    requires
        (c as u32) < 128,
    ensures
        is_white(c) <==> c == ' ' || c == '\t' || c == '\n' || c == '\r' || c == '\u{b}' || c
            == '\u{c}',
{
}

/// A number is read from digits alone, with a plus sign in front or without, and never exceeds what is
/// allowed.
pub proof fn numbers_are_digits(s: Seq<char>, max: nat)
    ensures
        parsed_uint(s, max) matches Some(n) ==> n <= max && s.len() > 0 && (is_digit(s[0]) || s[0]
            == '+') && forall|i: int| 1 <= i < s.len() ==> is_digit(#[trigger] s[i]),
        parsed_uint(Seq::empty(), max) is None,
{
    if parsed_uint(s, max) is Some {
        if s[0] == '+' {
            let digits = s.skip(1);
            assert forall|i: int| 1 <= i < s.len() implies is_digit(#[trigger] s[i]) by {
                assert(digits[i - 1] == s[i]);
            }
        } else {
            assert(is_digit(s[0]));
        }
    }
}

/// Digits are written as they are read by people, and hexadecimal ones in lower case.
pub proof fn digits_are_the_usual_ones(d: nat)
    requires
        d < 16,
    ensures
        d < 10 ==> digit_char(d) == "0123456789"@[d as int],
        hex_char(d) == "0123456789abcdef"@[d as int],
{
    reveal_strlit("0123456789");
    reveal_strlit("0123456789abcdef");
}

/// A number is written with its last digit behind all others, in tens and in sixteens.
pub proof fn last_digits_stand_last(n: nat, d: nat)
    requires
        n > 0,
    ensures
        d < 10 ==> decimal(10 * n + d) == decimal(n).push(digit_char(d)) && decimal(d)
            == seq![digit_char(d)],
        d < 16 ==> hex(16 * n + d) == hex(n).push(hex_char(d)) && hex(d) == seq![hex_char(d)],
{
}

/// A plus sign in front of a number means nothing.
pub proof fn plus_signs_are_read_over(n: nat)
    ensures
        parsed_uint(seq!['+'] + decimal(n), n) == Some(n),
        parsed_uint(seq!['+'], n) is None,
        parsed_uint(seq!['-'] + decimal(n), n) is None,
{
    decimal_reads_back(n);
    let s = seq!['+'] + decimal(n);
    assert(s.skip(1) =~= decimal(n));
    assert(seq!['+'].skip(1) =~= Seq::empty());
    let t = seq!['-'] + decimal(n);
    assert(t[0] == '-');
    if all_digits(t) {
        assert(is_digit(t[0]));
    }
}

} // verus!
