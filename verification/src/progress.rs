//! Progress of a running query, as the server reports it in response headers.
use vstd::prelude::*;

use crate::response::header_text;
use crate::text::{self, chars_between, chars_of, find, is_text, parse_u64, trim};

verus! {

/// Counters of one progress header; each grows while the query runs.
#[derive(Debug, PartialEq, Eq, Structural)]
#[non_exhaustive]
pub struct Progress {
    pub read_rows: u64,
    pub read_bytes: u64,
    /// The server's estimate; 0 until it is known.
    pub total_rows_to_read: u64,
    /// For inserts; 0 for other queries.
    pub written_rows: u64,
    /// For inserts.
    pub written_bytes: u64,
    pub elapsed_ns: u64,
}

/// All counters at 0.
pub open spec fn no_progress() -> Progress {
    Progress {
        read_rows: 0,
        read_bytes: 0,
        total_rows_to_read: 0,
        written_rows: 0,
        written_bytes: 0,
        elapsed_ns: 0,
    }
}

impl Default for Progress {
    fn default() -> (r: Progress)
        ensures
            r == no_progress(),
    {
        Progress {
            read_rows: 0,
            read_bytes: 0,
            total_rows_to_read: 0,
            written_rows: 0,
            written_bytes: 0,
            elapsed_ns: 0,
        }
    }
}

impl Clone for Progress {
    fn clone(&self) -> (r: Progress)
        ensures
            r == *self,
    {
        Progress {
            read_rows: self.read_rows,
            read_bytes: self.read_bytes,
            total_rows_to_read: self.total_rows_to_read,
            written_rows: self.written_rows,
            written_bytes: self.written_bytes,
            elapsed_ns: self.elapsed_ns,
        }
    }
}

/// The counters with one of them set. Unknown names change nothing.
pub open spec fn with_counter(p: Progress, name: Seq<char>, n: u64) -> Progress {
    if name == "read_rows"@ {
        Progress { read_rows: n, ..p }
    } else if name == "read_bytes"@ {
        Progress { read_bytes: n, ..p }
    } else if name == "total_rows_to_read"@ {
        Progress { total_rows_to_read: n, ..p }
    } else if name == "written_rows"@ {
        Progress { written_rows: n, ..p }
    } else if name == "written_bytes"@ {
        Progress { written_bytes: n, ..p }
    } else if name == "elapsed_ns"@ {
        Progress { elapsed_ns: n, ..p }
    } else {
        p
    }
}

/// A text without the double quotes around it. A single quote mark is not a pair.
pub open spec fn unquoted(s: Seq<char>) -> Option<Seq<char>> {
    if s.len() >= 2 && s[0] == '"' && s.last() == '"' {
        Some(s.subrange(1, s.len() - 1))
    } else {
        None
    }
}

/// A name and a number, both in quotes, with a colon between them.
pub open spec fn entry_of(s: Seq<char>) -> Option<(Seq<char>, nat)> {
    match text::first_index(s, seq![':'], 0) {
        Some(i) => match (unquoted(text::trimmed(s.take(i))), unquoted(text::trimmed(s.skip(i + 1)))) {
            (Some(name), Some(digits)) => match text::parsed_uint(digits, u64::MAX as nat) {
                Some(n) => Some((name, n)),
                None => None,
            },
            _ => None,
        },
        None => None,
    }
}

/// The counters after the entries of a list with commas between them, from `p` on.
pub open spec fn counted(s: Seq<char>, p: Progress) -> Option<Progress>
    decreases s.len(),
{
    match text::first_index(s, seq![','], 0) {
        Some(i) => if 0 <= i < s.len() {
            match entry_of(s.take(i)) {
                Some((name, n)) => counted(s.skip(i + 1), with_counter(p, name, n as u64)),
                None => None,
            }
        } else {
            None
        },
        None => match entry_of(s) {
            Some((name, n)) => Some(with_counter(p, name, n as u64)),
            None => None,
        },
    }
}

/// The counters that a header gives: entries in curly brackets.
pub open spec fn progress_in(value: Seq<char>) -> Option<Progress> {
    let s = text::trimmed(value);
    if s.len() >= 2 && s[0] == '{' && s.last() == '}' {
        let inner = text::trimmed(s.subrange(1, s.len() - 1));
        if inner.len() == 0 {
            Some(no_progress())
        } else {
            counted(inner, no_progress())
        }
    } else {
        None
    }
}

/// Takes the double quotes off a text that has a pair of them around it.
pub fn strip_quotes(chars: &[char]) -> (r: Option<Vec<char>>)
    ensures
        (match r {
            Some(v) => unquoted(chars@) == Some(v@),
            None => unquoted(chars@) is None,
        }),
{
    let len: usize = chars.len();
    if len >= 2 && chars[0] == '"' && chars[len - 1] == '"' {
        Some(chars_between(chars, 1, len - 1))
    } else {
        None
    }
}

fn read_entry(chars: &[char]) -> (r: Option<(Vec<char>, u64)>)
    ensures
        (match r {
            Some((name, n)) => entry_of(chars@) == Some((name@, n as nat)),
            None => entry_of(chars@) is None,
        }),
{
    let colon: [char; 1] = [':'];
    let len: usize = chars.len();
    proof {
        assert(colon@ =~= seq![':']);
    }
    match find(chars, &colon) {
        Some(i) => {
            let front = chars_between(chars, 0, i);
            let back = chars_between(chars, i + 1, len);
            proof {
                assert(front@ =~= chars@.take(i as int));
                assert(back@ =~= chars@.skip(i + 1));
            }
            let front = trim(front.as_slice());
            let back = trim(back.as_slice());
            match (strip_quotes(front.as_slice()), strip_quotes(back.as_slice())) {
                (Some(name), Some(digits)) => match parse_u64(digits.as_slice()) {
                    Some(n) => Some((name, n)),
                    None => None,
                },
                _ => None,
            }
        },
        None => None,
    }
}

fn set_counter(p: &mut Progress, name: &[char], n: u64)
    ensures
        *final(p) == with_counter(*old(p), name@, n),
{
    if is_text(name, "read_rows") {
        p.read_rows = n;
    } else if is_text(name, "read_bytes") {
        p.read_bytes = n;
    } else if is_text(name, "total_rows_to_read") {
        p.total_rows_to_read = n;
    } else if is_text(name, "written_rows") {
        p.written_rows = n;
    } else if is_text(name, "written_bytes") {
        p.written_bytes = n;
    } else if is_text(name, "elapsed_ns") {
        p.elapsed_ns = n;
    }
}

impl Progress {
    /// Reads the value of a progress header, such as `{"read_rows":"123","elapsed_ns":"4"}`.
    /// Names that are not known are passed over; a value in another form gives nothing.
    #[must_use]
    pub fn from_header_value(value: &str) -> (r: Option<Progress>)
        ensures
            r == progress_in(value@),
    {
        let chars = chars_of(value);
        let tidy = trim(chars.as_slice());
        let len: usize = tidy.len();
        if len < 2 || tidy[0] != '{' || tidy[len - 1] != '}' {
            return None;
        }
        let inner = chars_between(tidy.as_slice(), 1, len - 1);
        let mut rest = trim(inner.as_slice());
        let mut p = Progress::default();
        if rest.len() == 0 {
            return Some(p);
        }
        let comma: [char; 1] = [','];
        proof {
            assert(comma@ =~= seq![',']);
        }
        loop
            invariant
                comma@ == seq![','],
                progress_in(value@) == counted(rest@, p),
            decreases rest@.len(),
        {
            let len: usize = rest.len();
            match find(rest.as_slice(), &comma) {
                Some(i) => {
                    let here = chars_between(rest.as_slice(), 0, i);
                    let behind = chars_between(rest.as_slice(), i + 1, len);
                    proof {
                        assert(here@ =~= rest@.take(i as int));
                        assert(behind@ =~= rest@.skip(i + 1));
                    }
                    match read_entry(here.as_slice()) {
                        Some((name, n)) => set_counter(&mut p, name.as_slice(), n),
                        None => {
                            return None;
                        },
                    }
                    rest = behind;
                },
                None => {
                    match read_entry(rest.as_slice()) {
                        Some((name, n)) => set_counter(&mut p, name.as_slice(), n),
                        None => {
                            return None;
                        },
                    }
                    return Some(p);
                },
            }
        }
    }
}

/// The reports that header values give, one after the other. A value that is no text, or
/// none that can be read, gives none.
pub open spec fn reports_in(values: Seq<Seq<u8>>) -> Seq<Progress>
    decreases values.len(),
{
    if values.len() == 0 {
        Seq::empty()
    } else {
        match crate::response::text_of_header(values.last()) {
            Some(s) => match progress_in(s) {
                Some(p) => reports_in(values.drop_last()).push(p),
                None => reports_in(values.drop_last()),
            },
            None => reports_in(values.drop_last()),
        }
    }
}

/// The bytes of a list of values.
pub open spec fn values_of(v: Seq<Vec<u8>>) -> Seq<Seq<u8>> {
    Seq::new(v.len(), |i: int| v[i]@)
}

/// The reports to hand to an observer for the values of the progress headers of a response.
pub fn dispatch_progress(values: &Vec<Vec<u8>>) -> (out: Vec<Progress>)
    ensures
        out@ == reports_in(values_of(values@)),
{
    let mut out: Vec<Progress> = Vec::new();
    let ghost all = values_of(values@);
    let mut i: usize = 0;
    proof {
        assert(all.take(0) =~= Seq::empty());
    }
    while i < values.len()
        invariant
            i <= values@.len(),
            all == values_of(values@),
            out@ == reports_in(all.take(i as int)),
        decreases values@.len() - i,
    {
        proof {
            assert(all.take(i + 1).drop_last() =~= all.take(i as int));
            assert(all.take(i + 1).last() == all[i as int]);
        }
        if let Some(s) = header_text(values[i].as_slice()) {
            if let Some(p) = Progress::from_header_value(s.as_str()) {
                out.push(p);
            }
        }
        i += 1;
    }
    proof {
        assert(all.take(i as int) =~= all);
    }
    out
}

/// A counter as the server writes it.
pub open spec fn written_entry(name: Seq<char>, n: u64) -> Seq<char> {
    seq!['"'] + name + seq!['"', ':', '"'] + text::decimal(n as nat) + seq!['"']
}

/// The value of a progress header as the server writes it.
pub open spec fn written_progress(p: Progress) -> Seq<char> {
    seq!['{'] + (written_entry("read_rows"@, p.read_rows) + seq![','] + (written_entry(
        "read_bytes"@,
        p.read_bytes,
    ) + seq![','] + (written_entry("total_rows_to_read"@, p.total_rows_to_read) + seq![',']
        + (written_entry("written_rows"@, p.written_rows) + seq![','] + (written_entry(
        "written_bytes"@,
        p.written_bytes,
    ) + seq![','] + written_entry("elapsed_ns"@, p.elapsed_ns)))))) + seq!['}']
}

/// A text in which neither a comma nor a colon stands.
pub open spec fn is_plain_name(s: Seq<char>) -> bool {
    forall|i: int| 0 <= i < s.len() ==> #[trigger] s[i] != ',' && s[i] != ':'
}

proof fn lemma_first_char(s: Seq<char>, c: char, k: int)
    requires
        0 <= k < s.len(),
        s[k] == c,
        forall|j: int| 0 <= j < k ==> s[j] != c,
    ensures
        text::first_index(s, seq![c], 0) == Some(k),
{
    assert(s.subrange(k, k + 1) =~= seq![c]);
    assert forall|j: int| 0 <= j < k implies !text::occurs_at(s, seq![c], j) by {
        if text::occurs_at(s, seq![c], j) {
            assert(s.subrange(j, j + 1)[0] == s[j]);
        }
    }
    text::lemma_first_index_is(s, seq![c], 0, k);
}

proof fn lemma_no_comma(s: Seq<char>)
    requires
        forall|j: int| 0 <= j < s.len() ==> s[j] != ',',
    ensures
        text::first_index(s, seq![','], 0) is None,
{
    text::lemma_first_index(s, seq![','], 0);
    if let Some(i) = text::first_index(s, seq![','], 0) {
        assert(s.subrange(i, i + 1)[0] == s[i]);
    }
}

proof fn lemma_written_entry(name: Seq<char>, n: u64)
    requires
        is_plain_name(name),
    ensures
        entry_of(written_entry(name, n)) == Some((name, n as nat)),
        forall|j: int|
            0 <= j < written_entry(name, n).len() ==> #[trigger] written_entry(name, n)[j] != ',',
{
    let s = written_entry(name, n);
    let digits = text::decimal(n as nat);
    text::decimal_reads_back(n as nat);
    let k = name.len() as int + 2;
    assert forall|j: int| 0 <= j < s.len() implies #[trigger] s[j] != ',' && (j < k ==> s[j]
        != ':') by {
        if 1 <= j < 1 + name.len() {
            assert(s[j] == name[j - 1]);
        } else if k + 2 <= j < k + 2 + digits.len() {
            assert(s[j] == digits[j - k - 2]);
            assert(text::is_digit(digits[j - k - 2]));
        }
    }
    lemma_first_char(s, ':', k);
    let front = seq!['"'] + name + seq!['"'];
    let back = seq!['"'] + digits + seq!['"'];
    assert(s.take(k) =~= front);
    assert(s.skip(k + 1) =~= back);
    text::lemma_trimmed_already(front);
    text::lemma_trimmed_already(back);
    assert(front.subrange(1, front.len() - 1) =~= name);
    assert(back.subrange(1, back.len() - 1) =~= digits);
}

proof fn lemma_counted_first(name: Seq<char>, n: u64, rest: Seq<char>, p: Progress)
    requires
        is_plain_name(name),
    ensures
        counted(written_entry(name, n) + seq![','] + rest, p) == counted(
            rest,
            with_counter(p, name, n),
        ),
{
    let e = written_entry(name, n);
    let s = e + seq![','] + rest;
    lemma_written_entry(name, n);
    assert forall|j: int| 0 <= j < e.len() implies s[j] != ',' by {
        assert(s[j] == e[j]);
    }
    lemma_first_char(s, ',', e.len() as int);
    assert(s.take(e.len() as int) =~= e);
    assert(s.skip(e.len() as int + 1) =~= rest);
}

/// What a server reports is read back as it was reported.
pub proof fn written_progress_reads_back(p: Progress)
    ensures
        progress_in(written_progress(p)) == Some(p),
{
    reveal_strlit("read_rows");
    reveal_strlit("read_bytes");
    reveal_strlit("total_rows_to_read");
    reveal_strlit("written_rows");
    reveal_strlit("written_bytes");
    reveal_strlit("elapsed_ns");
    assert("read_bytes"@[0] == 'r' && "elapsed_ns"@[0] == 'e');
    let e6 = written_entry("elapsed_ns"@, p.elapsed_ns);
    let e5 = written_entry("written_bytes"@, p.written_bytes) + seq![','] + e6;
    let e4 = written_entry("written_rows"@, p.written_rows) + seq![','] + e5;
    let e3 = written_entry("total_rows_to_read"@, p.total_rows_to_read) + seq![','] + e4;
    let e2 = written_entry("read_bytes"@, p.read_bytes) + seq![','] + e3;
    let e1 = written_entry("read_rows"@, p.read_rows) + seq![','] + e2;
    let s = written_progress(p);
    assert(s =~= seq!['{'] + e1 + seq!['}']);
    text::lemma_trimmed_already(s);
    assert(s.subrange(1, s.len() - 1) =~= e1);
    assert(e1[0] == '"');
    assert(e1.last() == '"');
    text::lemma_trimmed_already(e1);
    let p0 = no_progress();
    let p1 = with_counter(p0, "read_rows"@, p.read_rows);
    let p2 = with_counter(p1, "read_bytes"@, p.read_bytes);
    let p3 = with_counter(p2, "total_rows_to_read"@, p.total_rows_to_read);
    let p4 = with_counter(p3, "written_rows"@, p.written_rows);
    let p5 = with_counter(p4, "written_bytes"@, p.written_bytes);
    lemma_counted_first("read_rows"@, p.read_rows, e2, p0);
    lemma_counted_first("read_bytes"@, p.read_bytes, e3, p1);
    lemma_counted_first("total_rows_to_read"@, p.total_rows_to_read, e4, p2);
    lemma_counted_first("written_rows"@, p.written_rows, e5, p3);
    lemma_counted_first("written_bytes"@, p.written_bytes, e6, p4);
    lemma_written_entry("elapsed_ns"@, p.elapsed_ns);
    lemma_no_comma(e6);
    assert(counted(e6, p5) == Some(with_counter(p5, "elapsed_ns"@, p.elapsed_ns)));
    assert(with_counter(p5, "elapsed_ns"@, p.elapsed_ns) == p);
}

/// A counter is set by its name alone, and setting one leaves the others as they are.
pub proof fn counters_are_set_one_by_one(p: Progress, n: u64, name: Seq<char>)
    ensures
        with_counter(p, "read_rows"@, n) == (Progress { read_rows: n, ..p }),
        with_counter(p, "read_bytes"@, n) == (Progress { read_bytes: n, ..p }),
        with_counter(p, "total_rows_to_read"@, n) == (Progress { total_rows_to_read: n, ..p }),
        with_counter(p, "written_rows"@, n) == (Progress { written_rows: n, ..p }),
        with_counter(p, "written_bytes"@, n) == (Progress { written_bytes: n, ..p }),
        with_counter(p, "elapsed_ns"@, n) == (Progress { elapsed_ns: n, ..p }),
        name != "read_rows"@ && name != "read_bytes"@ && name != "total_rows_to_read"@ && name
            != "written_rows"@ && name != "written_bytes"@ && name != "elapsed_ns"@ ==> with_counter(
            p,
            name,
            n,
        ) == p,
{
    reveal_strlit("read_rows");
    reveal_strlit("read_bytes");
    reveal_strlit("total_rows_to_read");
    reveal_strlit("written_rows");
    reveal_strlit("written_bytes");
    reveal_strlit("elapsed_ns");
    assert("read_rows"@.len() == 9 && "read_bytes"@.len() == 10);
    assert("total_rows_to_read"@.len() == 18 && "written_rows"@.len() == 12);
    assert("written_bytes"@.len() == 13 && "elapsed_ns"@.len() == 10);
    assert("read_bytes"@[0] == 'r' && "elapsed_ns"@[0] == 'e');
}

/// A report without counters is a report of nothing, and a text without its brackets is none.
pub proof fn empty_reports_are_reports(value: Seq<char>)
    ensures
        progress_in(seq!['{', '}']) == Some(no_progress()),
        no_progress().read_rows == 0 && no_progress().read_bytes == 0,
        no_progress().total_rows_to_read == 0 && no_progress().written_rows == 0,
        no_progress().written_bytes == 0 && no_progress().elapsed_ns == 0,
        progress_in(value) is Some ==> text::trimmed(value).len() >= 2 && text::trimmed(value)[0]
            == '{' && text::trimmed(value).last() == '}',
{
    let s = seq!['{', '}'];
    text::lemma_trimmed_already(s);
    assert(s.subrange(1, s.len() - 1) =~= Seq::empty());
    text::lemma_trimmed_already(Seq::<char>::empty());
}

/// Each header that can be read gives its report, in the order of the headers; one that cannot is
/// passed over, and the others are read all the same.
pub proof fn reports_come_in_order(values: Seq<Seq<u8>>, value: Seq<u8>)
    ensures
        reports_in(Seq::empty()) == Seq::<Progress>::empty(),
        reports_in(values.push(value)) == reports_in(values) + match crate::response::text_of_header(
            value,
        ) {
            Some(s) => match progress_in(s) {
                Some(p) => seq![p],
                None => Seq::empty(),
            },
            None => Seq::empty(),
        },
{
    assert(values.push(value).drop_last() =~= values);
}

/// A counter is read only with its name and its number in quotes and a colon between them.
pub proof fn counters_stand_in_quotes(s: Seq<char>, i: int)
    requires
        text::first_index(s, seq![':'], 0) == Some(i),
        0 <= i < s.len(),
    ensures
        entry_of(s) matches Some((name, n)) ==> {
            let a = text::trimmed(s.take(i));
            let b = text::trimmed(s.skip(i + 1));
            &&& a == seq!['"'] + name + seq!['"']
            &&& b.len() >= 2 && b[0] == '"' && b.last() == '"'
            &&& text::parsed_uint(b.subrange(1, b.len() - 1), u64::MAX as nat) == Some(n)
        },
{
    if let Some((name, n)) = entry_of(s) {
        let a = text::trimmed(s.take(i));
        assert(a =~= seq!['"'] + name + seq!['"']);
    }
}

/// A text without a colon is no counter, and a report with one such entry is none.
pub proof fn entries_need_a_colon(s: Seq<char>, p: Progress)
    requires
        text::first_index(s, seq![':'], 0) is None,
    ensures
        entry_of(s) is None,
        text::first_index(s, seq![','], 0) is None ==> counted(s, p) is None,
{
}

} // verus!
