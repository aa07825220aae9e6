//! Column types and the type names that a server announces them by.
use vstd::prelude::*;

use crate::text::{self, chars_between, chars_of, find, is_text, parse_u64, string_between, trim};

verus! {

/// How many types may be nested in one another in a type name that is accepted.
pub const MAX_TYPE_LEVELS: usize = 33;

/// The type of a column.
#[derive(Debug)]
pub enum ColumnType {
    UInt8,
    UInt16,
    UInt32,
    UInt64,
    UInt128,
    UInt256,
    Int8,
    Int16,
    Int32,
    Int64,
    Int128,
    Int256,
    Float32,
    Float64,
    /// A decimal number that is backed by a 32-bit integer.
    Decimal32 { precision: u8, scale: u8 },
    /// A decimal number that is backed by a 64-bit integer.
    Decimal64 { precision: u8, scale: u8 },
    /// A decimal number that is backed by a 128-bit integer.
    Decimal128 { precision: u8, scale: u8 },
    /// A decimal number that is backed by a 256-bit integer.
    Decimal256 { precision: u8, scale: u8 },
    String,
    /// Byte strings of one width.
    FixedString(usize),
    Date,
    Date32,
    DateTime,
    /// Ticks of `precision` sub-second digits, with the time zone that the type name gives.
    DateTime64 { precision: u8, timezone: Option<String> },
    Uuid,
    IPv4,
    IPv6,
    Enum8,
    Enum16,
    /// Documents; the type name in full.
    Json(String),
    /// Values of any type; the type name in full.
    Dynamic(String),
    /// Values of one of the alternatives; the type name in full.
    Variant { name: String, types: Vec<ColumnType> },
    BFloat16,
    Time,
    Time64 { precision: u8 },
    Point,
    Ring,
    LineString,
    MultiLineString,
    Polygon,
    MultiPolygon,
    Nullable(Box<ColumnType>),
    Array(Box<ColumnType>),
    Tuple(Vec<ColumnType>),
    /// Keys with values; the type name is `Map`.
    Mapping(Box<ColumnType>, Box<ColumnType>),
    LowCardinality(Box<ColumnType>),
    SimpleAggregateFunction(Box<ColumnType>),
}

/// The structure of a column type, with texts and lists as sequences. A type that holds
/// neither stands for itself.
pub enum Type {
    Plain(ColumnType),
    DateTime64 { precision: u8, timezone: Option<Seq<char>> },
    Json(Seq<char>),
    Dynamic(Seq<char>),
    Variant { name: Seq<char>, types: Seq<Type> },
    Nullable(Box<Type>),
    Array(Box<Type>),
    Tuple(Seq<Type>),
    /// Keys with values; the type name is `Map`.
    Mapping(Box<Type>, Box<Type>),
    LowCardinality(Box<Type>),
    SimpleAggregateFunction(Box<Type>),
}

/// The text of an optional string.
pub open spec fn text_of(s: Option<String>) -> Option<Seq<char>> {
    match s {
        Some(t) => Some(t@),
        None => None,
    }
}

impl ColumnType {
    /// The structure of the type.
    pub open spec fn model(self) -> Type
        decreases self,
    {
        match self {
            ColumnType::DateTime64 { precision, timezone } => Type::DateTime64 {
                precision,
                timezone: text_of(timezone),
            },
            ColumnType::Json(name) => Type::Json(name@),
            ColumnType::Dynamic(name) => Type::Dynamic(name@),
            ColumnType::Variant { name, types } => Type::Variant {
                name: name@,
                types: Seq::new(
                    types@.len(),
                    |i: int|
                        if 0 <= i < types@.len() {
                            types@[i].model()
                        } else {
                            arbitrary()
                        },
                ),
            },
            ColumnType::Nullable(t) => Type::Nullable(Box::new(t.model())),
            ColumnType::Array(t) => Type::Array(Box::new(t.model())),
            ColumnType::Tuple(ts) => Type::Tuple(
                Seq::new(
                    ts@.len(),
                    |i: int|
                        if 0 <= i < ts@.len() {
                            ts@[i].model()
                        } else {
                            arbitrary()
                        },
                ),
            ),
            ColumnType::Mapping(k, v) => Type::Mapping(Box::new(k.model()), Box::new(v.model())),
            ColumnType::LowCardinality(t) => Type::LowCardinality(Box::new(t.model())),
            ColumnType::SimpleAggregateFunction(t) => Type::SimpleAggregateFunction(
                Box::new(t.model()),
            ),
            t => Type::Plain(t),
        }
    }
}

/// The structures of a list of types.
pub open spec fn models(ts: Seq<ColumnType>) -> Seq<Type> {
    Seq::new(ts.len(), |i: int| ts[i].model())
}

/// The types that are named by one word.
pub open spec fn named_type(s: Seq<char>) -> Option<ColumnType> {
    if s == "UInt8"@ || s == "Bool"@ {
        Some(ColumnType::UInt8)
    } else if s == "UInt16"@ {
        Some(ColumnType::UInt16)
    } else if s == "UInt32"@ {
        Some(ColumnType::UInt32)
    } else if s == "UInt64"@ {
        Some(ColumnType::UInt64)
    } else if s == "UInt128"@ {
        Some(ColumnType::UInt128)
    } else if s == "UInt256"@ {
        Some(ColumnType::UInt256)
    } else if s == "Int8"@ {
        Some(ColumnType::Int8)
    } else if s == "Int16"@ {
        Some(ColumnType::Int16)
    } else if s == "Int32"@ {
        Some(ColumnType::Int32)
    } else if s == "Int64"@ {
        Some(ColumnType::Int64)
    } else if s == "Int128"@ {
        Some(ColumnType::Int128)
    } else if s == "Int256"@ {
        Some(ColumnType::Int256)
    } else if s == "Float32"@ {
        Some(ColumnType::Float32)
    } else if s == "Float64"@ {
        Some(ColumnType::Float64)
    } else if s == "String"@ {
        Some(ColumnType::String)
    } else if s == "Date"@ {
        Some(ColumnType::Date)
    } else if s == "Date32"@ {
        Some(ColumnType::Date32)
    } else if s == "DateTime"@ {
        Some(ColumnType::DateTime)
    } else if s == "UUID"@ {
        Some(ColumnType::Uuid)
    } else if s == "IPv4"@ {
        Some(ColumnType::IPv4)
    } else if s == "IPv6"@ {
        Some(ColumnType::IPv6)
    } else if s == "BFloat16"@ {
        Some(ColumnType::BFloat16)
    } else if s == "Time"@ {
        Some(ColumnType::Time)
    } else if s == "Point"@ {
        Some(ColumnType::Point)
    } else if s == "Ring"@ {
        Some(ColumnType::Ring)
    } else if s == "LineString"@ {
        Some(ColumnType::LineString)
    } else if s == "MultiLineString"@ {
        Some(ColumnType::MultiLineString)
    } else if s == "Polygon"@ {
        Some(ColumnType::Polygon)
    } else if s == "MultiPolygon"@ {
        Some(ColumnType::MultiPolygon)
    } else {
        None
    }
}

fn parse_named(s: &[char]) -> (r: Option<ColumnType>)
    ensures
        r == named_type(s@),
{
    if is_text(s, "UInt8") || is_text(s, "Bool") {
        Some(ColumnType::UInt8)
    } else if is_text(s, "UInt16") {
        Some(ColumnType::UInt16)
    } else if is_text(s, "UInt32") {
        Some(ColumnType::UInt32)
    } else if is_text(s, "UInt64") {
        Some(ColumnType::UInt64)
    } else if is_text(s, "UInt128") {
        Some(ColumnType::UInt128)
    } else if is_text(s, "UInt256") {
        Some(ColumnType::UInt256)
    } else if is_text(s, "Int8") {
        Some(ColumnType::Int8)
    } else if is_text(s, "Int16") {
        Some(ColumnType::Int16)
    } else if is_text(s, "Int32") {
        Some(ColumnType::Int32)
    } else if is_text(s, "Int64") {
        Some(ColumnType::Int64)
    } else if is_text(s, "Int128") {
        Some(ColumnType::Int128)
    } else if is_text(s, "Int256") {
        Some(ColumnType::Int256)
    } else if is_text(s, "Float32") {
        Some(ColumnType::Float32)
    } else if is_text(s, "Float64") {
        Some(ColumnType::Float64)
    } else if is_text(s, "String") {
        Some(ColumnType::String)
    } else if is_text(s, "Date") {
        Some(ColumnType::Date)
    } else if is_text(s, "Date32") {
        Some(ColumnType::Date32)
    } else if is_text(s, "DateTime") {
        Some(ColumnType::DateTime)
    } else if is_text(s, "UUID") {
        Some(ColumnType::Uuid)
    } else if is_text(s, "IPv4") {
        Some(ColumnType::IPv4)
    } else if is_text(s, "IPv6") {
        Some(ColumnType::IPv6)
    } else if is_text(s, "BFloat16") {
        Some(ColumnType::BFloat16)
    } else if is_text(s, "Time") {
        Some(ColumnType::Time)
    } else if is_text(s, "Point") {
        Some(ColumnType::Point)
    } else if is_text(s, "Ring") {
        Some(ColumnType::Ring)
    } else if is_text(s, "LineString") {
        Some(ColumnType::LineString)
    } else if is_text(s, "MultiLineString") {
        Some(ColumnType::MultiLineString)
    } else if is_text(s, "Polygon") {
        Some(ColumnType::Polygon)
    } else if is_text(s, "MultiPolygon") {
        Some(ColumnType::MultiPolygon)
    } else {
        None
    }
}

/// A text of the form `head(args)`, taken apart at its first opening bracket.
pub open spec fn head_and_args(s: Seq<char>) -> Option<(Seq<char>, Seq<char>)> {
    match text::first_index(s, seq!['('], 0) {
        Some(i) => if s.last() == ')' {
            Some((s.take(i), s.subrange(i + 1, s.len() - 1)))
        } else {
            None
        },
        None => None,
    }
}

fn split_head(s: &[char]) -> (r: Option<(Vec<char>, Vec<char>)>)
    ensures
        (match r {
            Some((h, a)) => head_and_args(s@) == Some((h@, a@)),
            None => head_and_args(s@) is None,
        }),
{
    let open: [char; 1] = ['('];
    proof {
        assert(open@ =~= seq!['(']);
        text::lemma_first_index(s@, seq!['('], 0);
    }
    match find(s, open.as_slice()) {
        Some(i) => {
            let n: usize = s.len();
            proof {
                assert(s@.subrange(i as int, i + 1)[0] == '(');
                assert(s@.subrange(0, i as int) =~= s@.take(i as int));
            }
            if s[n - 1] == ')' {
                Some((chars_between(s, 0, i), chars_between(s, i + 1, n - 1)))
            } else {
                None
            }
        },
        None => None,
    }
}

/// Where a reader of a list of arguments stands: how many brackets are open, in which
/// kind of quotes it is, and whether the next character is escaped.
pub struct ArgScan {
    pub depth: int,
    pub quote: Option<char>,
    pub escaped: bool,
}

/// The reader after one more character.
pub open spec fn scan_step(st: ArgScan, c: char) -> ArgScan {
    match st.quote {
        Some(q) => if st.escaped {
            ArgScan { escaped: false, ..st }
        } else if c == '\\' {
            ArgScan { escaped: true, ..st }
        } else if c == q {
            ArgScan { quote: None, ..st }
        } else {
            st
        },
        None => if c == '\'' || c == '`' {
            ArgScan { quote: Some(c), ..st }
        } else if c == '(' {
            ArgScan { depth: st.depth + 1, ..st }
        } else if c == ')' {
            ArgScan { depth: st.depth - 1, ..st }
        } else {
            st
        },
    }
}

/// The reader after the first `i` characters.
pub open spec fn scan(s: Seq<char>, i: int) -> ArgScan
    decreases i,
{
    if i <= 0 {
        ArgScan { depth: 0, quote: None, escaped: false }
    } else {
        scan_step(scan(s, i - 1), s[i - 1])
    }
}

/// A comma outside of brackets and quotes.
pub open spec fn is_separator(s: Seq<char>, i: int) -> bool {
    0 <= i < s.len() && s[i] == ',' && scan(s, i).depth == 0 && scan(s, i).quote is None
}

/// The first separator from `i` on, or the end.
pub open spec fn next_separator(s: Seq<char>, i: int) -> int
    decreases s.len() - i,
{
    if i >= s.len() || is_separator(s, i) {
        i
    } else {
        next_separator(s, i + 1)
    }
}

/// The arguments from `start` on, split at the separators.
pub open spec fn args_from(s: Seq<char>, start: int) -> Seq<Seq<char>>
    decreases s.len() - start + 1,
    when 0 <= start <= s.len()
    via args_from_decreases
{
    let end = next_separator(s, start);
    if end >= s.len() {
        seq![s.subrange(start, s.len() as int)]
    } else {
        seq![s.subrange(start, end)] + args_from(s, end + 1)
    }
}

#[via_fn]
proof fn args_from_decreases(s: Seq<char>, start: int) {
    lemma_next_separator(s, start);
}

proof fn lemma_next_separator(s: Seq<char>, i: int)
    ensures
        i <= next_separator(s, i),
        i <= s.len() ==> next_separator(s, i) <= s.len(),
    decreases s.len() - i,
{
    if !(i >= s.len() || is_separator(s, i)) {
        lemma_next_separator(s, i + 1);
    }
}

/// A list of arguments, split at the commas outside of brackets and quotes.
pub open spec fn split_args(s: Seq<char>) -> Seq<Seq<char>> {
    args_from(s, 0)
}

/// The texts of a list of character vectors.
pub open spec fn texts(v: Seq<Vec<char>>) -> Seq<Seq<char>> {
    Seq::new(v.len(), |i: int| v[i]@)
}

fn split_arguments(s: &[char]) -> (out: Vec<Vec<char>>)
    ensures
        texts(out@) == split_args(s@),
        out@.len() > 0,
{
    let mut out: Vec<Vec<char>> = Vec::new();
    let n: usize = s.len();
    let mut start: usize = 0;
    let mut i: usize = 0;
    let mut depth: i128 = 0;
    let mut quote: Option<char> = None;
    let mut escaped: bool = false;
    proof {
        assert(texts(out@) + args_from(s@, 0) =~= args_from(s@, 0));
    }
    while i < n
        invariant
            start <= i <= s@.len() == n,
            texts(out@) + args_from(s@, start as int) == args_from(s@, 0),
            next_separator(s@, start as int) == next_separator(s@, i as int),
            scan(s@, i as int) == (ArgScan { depth: depth as int, quote, escaped }),
            -i <= depth <= i,
        decreases s@.len() - i,
    {
        let c = s[i];
        match quote {
            Some(q) => {
                if escaped {
                    escaped = false;
                } else if c == '\\' {
                    escaped = true;
                } else if c == q {
                    quote = None;
                }
            },
            None => {
                if c == '\'' || c == '`' {
                    quote = Some(c);
                } else if c == '(' {
                    depth = depth + 1;
                } else if c == ')' {
                    depth = depth - 1;
                } else if c == ',' && depth == 0 {
                    let ghost before = out@;
                    out.push(chars_between(s, start, i));
                    proof {
                        assert(is_separator(s@, i as int));
                        let piece = s@.subrange(start as int, i as int);
                        assert(args_from(s@, start as int) == seq![piece] + args_from(s@, i + 1));
                        assert(texts(out@) =~= texts(before).push(piece));
                        assert(texts(out@) + args_from(s@, i + 1) =~= texts(before) + args_from(
                            s@,
                            start as int,
                        ));
                    }
                    start = i + 1;
                }
            },
        }
        i += 1;
    }
    let ghost before = out@;
    out.push(chars_between(s, start, n));
    proof {
        let piece = s@.subrange(start as int, s@.len() as int);
        assert(texts(out@) =~= texts(before).push(piece));
        assert(texts(out@) =~= texts(before) + args_from(s@, start as int));
    }
    out
}

/// The text between single quotes.
pub open spec fn quoted(s: Seq<char>) -> Option<Seq<char>> {
    let t = text::trimmed(s);
    if t.len() >= 2 && t[0] == '\'' && t.last() == '\'' {
        Some(t.subrange(1, t.len() - 1))
    } else {
        None
    }
}

fn unquote(s: &[char]) -> (r: Option<String>)
    ensures
        text_of(r) == quoted(s@),
{
    let t = trim(s);
    let n: usize = t.len();
    if n >= 2 && t[0] == '\'' && t[n - 1] == '\'' {
        Some(string_between(t.as_slice(), 1, n - 1))
    } else {
        None
    }
}

/// A number of at most `max` with white space around it.
pub open spec fn number_arg(s: Seq<char>, max: nat) -> Option<nat> {
    text::parsed_uint(text::trimmed(s), max)
}

fn small_number(s: &[char]) -> (r: Option<u8>)
    ensures
        (match r {
            Some(v) => number_arg(s@, 255) == Some(v as nat),
            None => number_arg(s@, 255) is None,
        }),
{
    let t = trim(s);
    match parse_u64(t.as_slice()) {
        Some(v) => if v <= 255 {
            Some(v as u8)
        } else {
            None
        },
        None => None,
    }
}

fn width_number(s: &[char]) -> (r: Option<usize>)
    ensures
        (match r {
            Some(v) => number_arg(s@, usize::MAX as nat) == Some(v as nat),
            None => number_arg(s@, usize::MAX as nat) is None,
        }),
{
    let t = trim(s);
    match parse_u64(t.as_slice()) {
        Some(v) => if v <= usize::MAX as u64 {
            Some(v as usize)
        } else {
            None
        },
        None => None,
    }
}

/// The type of a decimal number with the given total and fractional digits.
pub open spec fn decimal_type(precision: nat, scale: nat) -> Option<ColumnType> {
    if precision < 1 || precision > 76 || scale > precision {
        None
    } else if precision <= 9 {
        Some(ColumnType::Decimal32 { precision: precision as u8, scale: scale as u8 })
    } else if precision <= 18 {
        Some(ColumnType::Decimal64 { precision: precision as u8, scale: scale as u8 })
    } else if precision <= 38 {
        Some(ColumnType::Decimal128 { precision: precision as u8, scale: scale as u8 })
    } else {
        Some(ColumnType::Decimal256 { precision: precision as u8, scale: scale as u8 })
    }
}

fn make_decimal(precision: u8, scale: u8) -> (r: Option<ColumnType>)
    ensures
        r == decimal_type(precision as nat, scale as nat),
{
    if precision < 1 || precision > 76 || scale > precision {
        None
    } else if precision <= 9 {
        Some(ColumnType::Decimal32 { precision, scale })
    } else if precision <= 18 {
        Some(ColumnType::Decimal64 { precision, scale })
    } else if precision <= 38 {
        Some(ColumnType::Decimal128 { precision, scale })
    } else {
        Some(ColumnType::Decimal256 { precision, scale })
    }
}

/// The plain types that take arguments.
pub open spec fn plain_with_args(head: Seq<char>, args: Seq<char>) -> Option<ColumnType> {
    if head == "FixedString"@ {
        match number_arg(args, usize::MAX as nat) {
            Some(n) => Some(ColumnType::FixedString(n as usize)),
            None => None,
        }
    } else if head == "DateTime"@ {
        match quoted(args) {
            Some(_) => Some(ColumnType::DateTime),
            None => None,
        }
    } else if head == "Time64"@ {
        match number_arg(args, 255) {
            Some(p) => Some(ColumnType::Time64 { precision: p as u8 }),
            None => None,
        }
    } else if head == "Enum8"@ {
        Some(ColumnType::Enum8)
    } else if head == "Enum16"@ {
        Some(ColumnType::Enum16)
    } else if head == "Decimal32"@ {
        sized_decimal(args, 9)
    } else if head == "Decimal64"@ {
        sized_decimal(args, 18)
    } else if head == "Decimal128"@ {
        sized_decimal(args, 38)
    } else if head == "Decimal256"@ {
        sized_decimal(args, 76)
    } else if head == "Decimal"@ {
        let parts = split_args(args);
        if parts.len() == 2 {
            match (number_arg(parts[0], 255), number_arg(parts[1], 255)) {
                (Some(p), Some(s)) => decimal_type(p, s),
                _ => None,
            }
        } else {
            None
        }
    } else {
        None
    }
}

/// A decimal type that is named by the width of its integer, which implies the precision.
pub open spec fn sized_decimal(args: Seq<char>, precision: nat) -> Option<ColumnType> {
    match number_arg(args, 255) {
        Some(s) => decimal_type(precision, s),
        None => None,
    }
}

fn parse_sized_decimal(args: &[char], precision: u8) -> (r: Option<ColumnType>)
    ensures
        r == sized_decimal(args@, precision as nat),
{
    match small_number(args) {
        Some(s) => make_decimal(precision, s),
        None => None,
    }
}

fn parse_plain_with_args(head: &[char], args: &[char]) -> (r: Option<ColumnType>)
    ensures
        r == plain_with_args(head@, args@),
{
    if is_text(head, "FixedString") {
        match width_number(args) {
            Some(n) => Some(ColumnType::FixedString(n)),
            None => None,
        }
    } else if is_text(head, "DateTime") {
        match unquote(args) {
            Some(_) => Some(ColumnType::DateTime),
            None => None,
        }
    } else if is_text(head, "Time64") {
        match small_number(args) {
            Some(precision) => Some(ColumnType::Time64 { precision }),
            None => None,
        }
    } else if is_text(head, "Enum8") {
        Some(ColumnType::Enum8)
    } else if is_text(head, "Enum16") {
        Some(ColumnType::Enum16)
    } else if is_text(head, "Decimal32") {
        parse_sized_decimal(args, 9)
    } else if is_text(head, "Decimal64") {
        parse_sized_decimal(args, 18)
    } else if is_text(head, "Decimal128") {
        parse_sized_decimal(args, 38)
    } else if is_text(head, "Decimal256") {
        parse_sized_decimal(args, 76)
    } else if is_text(head, "Decimal") {
        let parts = split_arguments(args);
        proof {
            assert(texts(parts@).len() == parts@.len());
        }
        if parts.len() == 2 {
            proof {
                assert(texts(parts@)[0] == parts@[0]@ && texts(parts@)[1] == parts@[1]@);
            }
            match (small_number(parts[0].as_slice()), small_number(parts[1].as_slice())) {
                (Some(p), Some(s)) => make_decimal(p, s),
                _ => None,
            }
        } else {
            None
        }
    } else {
        None
    }
}

/// The type of ticks, from its arguments.
pub open spec fn datetime64_type(args: Seq<char>) -> Option<Type> {
    let parts = split_args(args);
    if parts.len() == 1 {
        match number_arg(parts[0], 255) {
            Some(p) => Some(Type::DateTime64 { precision: p as u8, timezone: None }),
            None => None,
        }
    } else if parts.len() == 2 {
        match (number_arg(parts[0], 255), quoted(parts[1])) {
            (Some(p), Some(tz)) => Some(
                Type::DateTime64 { precision: p as u8, timezone: Some(tz) },
            ),
            _ => None,
        }
    } else {
        None
    }
}

fn parse_datetime64(args: &[char]) -> (r: Option<ColumnType>)
    ensures
        model_of(r) == datetime64_type(args@),
{
    let parts = split_arguments(args);
    proof {
        assert(texts(parts@).len() == parts@.len());
        assert(forall|i: int| 0 <= i < parts@.len() ==> texts(parts@)[i] == (#[trigger] parts@[i])@);
    }
    if parts.len() == 1 {
        match small_number(parts[0].as_slice()) {
            Some(precision) => Some(ColumnType::DateTime64 { precision, timezone: None }),
            None => None,
        }
    } else if parts.len() == 2 {
        match (small_number(parts[0].as_slice()), unquote(parts[1].as_slice())) {
            (Some(precision), Some(tz)) => Some(
                ColumnType::DateTime64 { precision, timezone: Some(tz) },
            ),
            _ => None,
        }
    } else {
        None
    }
}

/// The structure of an optional type.
pub open spec fn model_of(t: Option<ColumnType>) -> Option<Type> {
    match t {
        Some(t) => Some(t.model()),
        None => None,
    }
}

/// What follows the name in a named element of a tuple: `name Type`, the name in
/// backticks where it is no word.
pub open spec fn after_name(s: Seq<char>) -> Option<Seq<char>> {
    let t = text::trimmed(s);
    if t.len() > 0 && t[0] == '`' {
        match text::first_index(t, seq!['`'], 1) {
            Some(i) => Some(t.skip(i + 1)),
            None => None,
        }
    } else {
        match text::first_index(t, seq![' '], 0) {
            Some(i) => Some(t.skip(i + 1)),
            None => None,
        }
    }
}

fn find_char(s: &[char], from: usize, c: char) -> (r: Option<usize>)
    requires
        from <= s@.len(),
    ensures
        (match r {
            Some(i) => i < s@.len() && text::first_index(s@, seq![c], from as int) == Some(i as int),
            None => text::first_index(s@, seq![c], from as int) is None,
        }),
{
    let mut i: usize = from;
    while i < s.len()
        invariant
            from <= i <= s@.len(),
            text::first_index(s@, seq![c], from as int) == text::first_index(s@, seq![c], i as int),
        decreases s@.len() - i,
    {
        if s[i] == c {
            proof {
                assert(s@.subrange(i as int, i + 1) =~= seq![c]);
            }
            return Some(i);
        }
        proof {
            assert(s@.subrange(i as int, i + 1)[0] != seq![c][0]);
        }
        i += 1;
    }
    None
}

fn skip_name(s: &[char]) -> (r: Option<Vec<char>>)
    ensures
        (match r {
            Some(t) => after_name(s@) == Some(t@),
            None => after_name(s@) is None,
        }),
{
    let t = trim(s);
    let found = if t.len() > 0 && t[0] == '`' {
        find_char(t.as_slice(), 1, '`')
    } else {
        find_char(t.as_slice(), 0, ' ')
    };
    match found {
        Some(i) => {
            proof {
                assert(t@.subrange(i + 1, t@.len() as int) =~= t@.skip(i + 1));
            }
            Some(chars_between(t.as_slice(), i + 1, t.len()))
        },
        None => None,
    }
}

/// The type that a name stands for, where at most `levels` types are nested in one another. What
/// a dynamic column holds counts as nested in it.
pub open spec fn type_named(s: Seq<char>, levels: nat) -> Option<Type>
    decreases levels, 0nat,
{
    if levels == 0 {
        None
    } else {
        let t = text::trimmed(s);
        let below = (levels - 1) as nat;
        match named_type(t) {
            Some(p) => Some(Type::Plain(p)),
            None => match head_and_args(t) {
                None => if t == "JSON"@ {
                    Some(Type::Json(t))
                } else if t == "Dynamic"@ && below > 0 {
                    Some(Type::Dynamic(t))
                } else {
                    None
                },
                Some((head, args)) => if head == "DateTime64"@ {
                    datetime64_type(args)
                } else if head == "Nullable"@ {
                    match type_named(args, below) {
                        Some(t) => Some(Type::Nullable(Box::new(t))),
                        None => None,
                    }
                } else if head == "Array"@ {
                    match type_named(args, below) {
                        Some(t) => Some(Type::Array(Box::new(t))),
                        None => None,
                    }
                } else if head == "LowCardinality"@ {
                    match type_named(args, below) {
                        Some(t) => Some(Type::LowCardinality(Box::new(t))),
                        None => None,
                    }
                } else if head == "Tuple"@ {
                    match elements_named(split_args(args), below) {
                        Some(ts) => Some(Type::Tuple(ts)),
                        None => None,
                    }
                } else if head == "Variant"@ {
                    match elements_named(split_args(args), below) {
                        Some(types) => Some(Type::Variant { name: t, types }),
                        None => None,
                    }
                } else if head == "JSON"@ {
                    Some(Type::Json(t))
                } else if head == "Dynamic"@ {
                    if below > 0 {
                        Some(Type::Dynamic(t))
                    } else {
                        None
                    }
                } else if head == "Map"@ {
                    let parts = split_args(args);
                    if parts.len() == 2 {
                        match (type_named(parts[0], below), type_named(parts[1], below)) {
                            (Some(k), Some(v)) => Some(Type::Mapping(Box::new(k), Box::new(v))),
                            _ => None,
                        }
                    } else {
                        None
                    }
                } else if head == "SimpleAggregateFunction"@ {
                    let parts = split_args(args);
                    if parts.len() == 2 {
                        match type_named(parts[1], below) {
                            Some(t) => Some(Type::SimpleAggregateFunction(Box::new(t))),
                            None => None,
                        }
                    } else {
                        None
                    }
                } else {
                    match plain_with_args(head, args) {
                        Some(p) => Some(Type::Plain(p)),
                        None => None,
                    }
                },
            },
        }
    }
}

/// The type of one element of a tuple, with or without a name before it.
pub open spec fn element_named(s: Seq<char>, levels: nat) -> Option<Type>
    decreases levels, 1nat,
{
    match type_named(s, levels) {
        Some(t) => Some(t),
        None => match after_name(s) {
            Some(rest) => type_named(rest, levels),
            None => None,
        },
    }
}

/// The types of the elements of a tuple.
pub open spec fn elements_named(parts: Seq<Seq<char>>, levels: nat) -> Option<Seq<Type>>
    decreases levels, 2 + parts.len(),
{
    if parts.len() == 0 {
        Some(Seq::empty())
    } else {
        match (elements_named(parts.drop_last(), levels), element_named(parts.last(), levels)) {
            (Some(ts), Some(t)) => Some(ts.push(t)),
            _ => None,
        }
    }
}

fn parse_element(s: &[char], levels: usize) -> (r: Option<ColumnType>)
    ensures
        model_of(r) == element_named(s@, levels as nat),
    decreases levels, 1nat,
{
    match parse_type(s, levels) {
        Some(t) => Some(t),
        None => match skip_name(s) {
            Some(rest) => parse_type(rest.as_slice(), levels),
            None => None,
        },
    }
}

fn parse_elements(parts: &Vec<Vec<char>>, levels: usize) -> (r: Option<Vec<ColumnType>>)
    ensures
        (match r {
            Some(ts) => elements_named(texts(parts@), levels as nat) == Some(models(ts@)),
            None => elements_named(texts(parts@), levels as nat) is None,
        }),
    decreases levels, 2nat,
{
    let ghost all = texts(parts@);
    let mut ts: Vec<ColumnType> = Vec::new();
    let mut i: usize = 0;
    proof {
        assert(all.take(0) =~= Seq::empty());
        assert(models(ts@) =~= Seq::empty());
    }
    while i < parts.len()
        invariant
            i <= parts@.len(),
            all == texts(parts@),
            elements_named(all.take(i as int), levels as nat) == Some(models(ts@)),
        decreases parts@.len() - i,
    {
        proof {
            assert(all.take(i + 1).drop_last() =~= all.take(i as int));
            assert(all.take(i + 1).last() == parts@[i as int]@);
        }
        match parse_element(parts[i].as_slice(), levels) {
            Some(t) => {
                let ghost before = ts@;
                ts.push(t);
                proof {
                    assert(models(ts@) =~= models(before).push(t.model()));
                }
            },
            None => {
                proof {
                    lemma_elements_fail(all, i + 1, levels as nat);
                }
                return None;
            },
        }
        i += 1;
    }
    proof {
        assert(all.take(i as int) =~= all);
    }
    Some(ts)
}

fn parse_type(s: &[char], levels: usize) -> (r: Option<ColumnType>)
    ensures
        model_of(r) == type_named(s@, levels as nat),
    decreases levels, 0nat,
{
    if levels == 0 {
        return None;
    }
    let t = trim(s);
    let below: usize = levels - 1;
    match parse_named(t.as_slice()) {
        Some(p) => {
            return Some(p);
        },
        None => {},
    }
    let (head, args) = match split_head(t.as_slice()) {
        Some(p) => p,
        None => {
            return if is_text(t.as_slice(), "JSON") {
                Some(ColumnType::Json("JSON".to_owned()))
            } else if is_text(t.as_slice(), "Dynamic") && below > 0 {
                Some(ColumnType::Dynamic("Dynamic".to_owned()))
            } else {
                None
            };
        },
    };
    if is_text(head.as_slice(), "DateTime64") {
        parse_datetime64(args.as_slice())
    } else if is_text(head.as_slice(), "Nullable") {
        match parse_type(args.as_slice(), below) {
            Some(t) => Some(ColumnType::Nullable(Box::new(t))),
            None => None,
        }
    } else if is_text(head.as_slice(), "Array") {
        match parse_type(args.as_slice(), below) {
            Some(t) => Some(ColumnType::Array(Box::new(t))),
            None => None,
        }
    } else if is_text(head.as_slice(), "LowCardinality") {
        match parse_type(args.as_slice(), below) {
            Some(t) => Some(ColumnType::LowCardinality(Box::new(t))),
            None => None,
        }
    } else if is_text(head.as_slice(), "Tuple") {
        let parts = split_arguments(args.as_slice());
        match parse_elements(&parts, below) {
            Some(ts) => {
                proof {
                    lemma_tuple_model(ts);
                }
                Some(ColumnType::Tuple(ts))
            },
            None => None,
        }
    } else if is_text(head.as_slice(), "Variant") {
        let parts = split_arguments(args.as_slice());
        match parse_elements(&parts, below) {
            Some(types) => {
                let name = string_between(t.as_slice(), 0, t.len());
                proof {
                    assert(t@.subrange(0, t@.len() as int) =~= t@);
                    lemma_variant_model(name, types);
                }
                Some(ColumnType::Variant { name, types })
            },
            None => None,
        }
    } else if is_text(head.as_slice(), "JSON") {
        proof {
            assert(t@.subrange(0, t@.len() as int) =~= t@);
        }
        Some(ColumnType::Json(string_between(t.as_slice(), 0, t.len())))
    } else if is_text(head.as_slice(), "Dynamic") {
        proof {
            assert(t@.subrange(0, t@.len() as int) =~= t@);
        }
        if below > 0 {
            Some(ColumnType::Dynamic(string_between(t.as_slice(), 0, t.len())))
        } else {
            None
        }
    } else if is_text(head.as_slice(), "Map") {
        let parts = split_arguments(args.as_slice());
        proof {
            assert(texts(parts@).len() == parts@.len());
        }
        if parts.len() == 2 {
            proof {
                assert(texts(parts@)[0] == parts@[0]@ && texts(parts@)[1] == parts@[1]@);
            }
            match (parse_type(parts[0].as_slice(), below), parse_type(parts[1].as_slice(), below)) {
                (Some(k), Some(v)) => Some(ColumnType::Mapping(Box::new(k), Box::new(v))),
                _ => None,
            }
        } else {
            None
        }
    } else if is_text(head.as_slice(), "SimpleAggregateFunction") {
        let parts = split_arguments(args.as_slice());
        proof {
            assert(texts(parts@).len() == parts@.len());
        }
        if parts.len() == 2 {
            proof {
                assert(texts(parts@)[1] == parts@[1]@);
            }
            match parse_type(parts[1].as_slice(), below) {
                Some(t) => Some(ColumnType::SimpleAggregateFunction(Box::new(t))),
                None => None,
            }
        } else {
            None
        }
    } else {
        parse_plain_with_args(head.as_slice(), args.as_slice())
    }
}

proof fn lemma_elements_fail(parts: Seq<Seq<char>>, k: int, levels: nat)
    requires
        0 <= k <= parts.len(),
        elements_named(parts.take(k), levels) is None,
    ensures
        elements_named(parts, levels) is None,
    decreases parts.len(),
{
    if k == parts.len() {
        assert(parts.take(k) =~= parts);
    } else {
        assert(parts.drop_last().take(k) =~= parts.take(k));
        lemma_elements_fail(parts.drop_last(), k, levels);
    }
}

/// A tuple's structure is the list of its elements' structures.
pub proof fn lemma_tuple_model(ts: Vec<ColumnType>)
    ensures
        ColumnType::Tuple(ts).model() == Type::Tuple(models(ts@)),
{
    assert(ColumnType::Tuple(ts).model()->Tuple_0 =~= models(ts@));
}

/// The alternatives of a variant have the structures of their types.
pub proof fn lemma_variant_model(name: String, types: Vec<ColumnType>)
    ensures
        (ColumnType::Variant { name, types }).model() == (Type::Variant {
            name: name@,
            types: models(types@),
        }),
{
    assert((ColumnType::Variant { name, types }).model()->types =~= models(types@));
}

impl ColumnType {
    /// The type that a name stands for, where at most `levels` types are nested in one another.
    pub fn parse_within(name: &str, levels: usize) -> (r: Option<ColumnType>)
        ensures
            model_of(r) == type_named(name@, levels as nat),
    {
        let chars = chars_of(name);
        parse_type(chars.as_slice(), levels)
    }

    /// The type that a server announces under `name`, or nothing where the name is unknown
    /// or nests types too deep.
    pub fn parse(name: &str) -> (r: Option<ColumnType>)
        ensures
            model_of(r) == type_named(name@, MAX_TYPE_LEVELS as nat),
    {
        ColumnType::parse_within(name, MAX_TYPE_LEVELS)
    }
}

} // verus!
