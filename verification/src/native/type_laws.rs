//! The names of types: each type has a name of its own, and reading the name gives the type back.
use vstd::prelude::*;

use crate::native::column_type::{self, ArgScan, ColumnType, Type};
use crate::native::decode_roundtrip as roundtrip;
use crate::sql;
use crate::text;

verus! {

/// The name by which a server announces a type that stands for itself.
pub open spec fn plain_name(t: ColumnType) -> Seq<char> {
    match t {
        ColumnType::UInt8 => "UInt8"@,
        ColumnType::UInt16 => "UInt16"@,
        ColumnType::UInt32 => "UInt32"@,
        ColumnType::UInt64 => "UInt64"@,
        ColumnType::UInt128 => "UInt128"@,
        ColumnType::UInt256 => "UInt256"@,
        ColumnType::Int8 => "Int8"@,
        ColumnType::Int16 => "Int16"@,
        ColumnType::Int32 => "Int32"@,
        ColumnType::Int64 => "Int64"@,
        ColumnType::Int128 => "Int128"@,
        ColumnType::Int256 => "Int256"@,
        ColumnType::Float32 => "Float32"@,
        ColumnType::Float64 => "Float64"@,
        ColumnType::String => "String"@,
        ColumnType::Date => "Date"@,
        ColumnType::Date32 => "Date32"@,
        ColumnType::DateTime => "DateTime"@,
        ColumnType::Uuid => "UUID"@,
        ColumnType::IPv4 => "IPv4"@,
        ColumnType::IPv6 => "IPv6"@,
        ColumnType::BFloat16 => "BFloat16"@,
        ColumnType::Time => "Time"@,
        ColumnType::Point => "Point"@,
        ColumnType::Ring => "Ring"@,
        ColumnType::LineString => "LineString"@,
        ColumnType::MultiLineString => "MultiLineString"@,
        ColumnType::Polygon => "Polygon"@,
        ColumnType::MultiPolygon => "MultiPolygon"@,
        ColumnType::Decimal32 { precision, scale } => decimal_name(precision, scale),
        ColumnType::Decimal64 { precision, scale } => decimal_name(precision, scale),
        ColumnType::Decimal128 { precision, scale } => decimal_name(precision, scale),
        ColumnType::Decimal256 { precision, scale } => decimal_name(precision, scale),
        ColumnType::FixedString(width) => applied("FixedString"@, text::decimal(width as nat)),
        ColumnType::Time64 { precision } => applied("Time64"@, text::decimal(precision as nat)),
        ColumnType::Enum8 => applied("Enum8"@, Seq::empty()),
        ColumnType::Enum16 => applied("Enum16"@, Seq::empty()),
        _ => Seq::empty(),
    }
}

/// The name of a decimal type.
pub open spec fn decimal_name(precision: u8, scale: u8) -> Seq<char> {
    applied(
        "Decimal"@,
        listed(seq![text::decimal(precision as nat), text::decimal(scale as nat)]),
    )
}

/// A name with arguments.
pub open spec fn applied(head: Seq<char>, args: Seq<char>) -> Seq<char> {
    head + seq!['('] + args + seq![')']
}

/// Texts with a comma and a space between them.
pub open spec fn listed(parts: Seq<Seq<char>>) -> Seq<char>
    decreases parts.len(),
{
    if parts.len() == 0 {
        Seq::empty()
    } else if parts.len() == 1 {
        parts[0]
    } else {
        listed(parts.drop_last()) + seq![',', ' '] + parts.last()
    }
}

/// A text in single quotes.
pub open spec fn in_quotes(s: Seq<char>) -> Seq<char> {
    seq!['\''] + s + seq!['\'']
}

/// The name by which a server announces a type.
pub open spec fn name_of(t: Type) -> Seq<char>
    decreases t,
{
    match t {
        Type::Plain(p) => plain_name(p),
        Type::DateTime64 { precision, timezone } => applied(
            "DateTime64"@,
            match timezone {
                None => text::decimal(precision as nat),
                Some(tz) => listed(seq![text::decimal(precision as nat), in_quotes(tz)]),
            },
        ),
        Type::Json(name) => name,
        Type::Dynamic(name) => name,
        Type::Variant { name, .. } => name,
        Type::Nullable(inner) => applied("Nullable"@, name_of(*inner)),
        Type::Array(inner) => applied("Array"@, name_of(*inner)),
        Type::Tuple(types) => applied("Tuple"@, listed(names_of(types))),
        Type::Mapping(k, v) => applied("Map"@, listed(seq![name_of(*k), name_of(*v)])),
        Type::LowCardinality(inner) => applied("LowCardinality"@, name_of(*inner)),
        Type::SimpleAggregateFunction(inner) => applied(
            "SimpleAggregateFunction"@,
            listed(seq!["any"@, name_of(*inner)]),
        ),
    }
}

/// The names of types.
pub open spec fn names_of(types: Seq<Type>) -> Seq<Seq<char>>
    decreases types,
{
    if types.len() == 0 {
        Seq::empty()
    } else {
        names_of(types.drop_last()).push(name_of(types.last()))
    }
}

/// A type that stands for itself, with arguments that its name can have.
pub open spec fn is_plain(p: ColumnType) -> bool {
    match p {
        ColumnType::Decimal32 { precision, scale } => 1 <= precision <= 9 && scale <= precision,
        ColumnType::Decimal64 { precision, scale } => 10 <= precision <= 18 && scale <= precision,
        ColumnType::Decimal128 { precision, scale } => 19 <= precision <= 38 && scale <= precision,
        ColumnType::Decimal256 { precision, scale } => 39 <= precision <= 76 && scale <= precision,
        ColumnType::DateTime64 { .. } => false,
        ColumnType::Json(_) | ColumnType::Dynamic(_) | ColumnType::Variant { .. } => false,
        ColumnType::Nullable(_) | ColumnType::Array(_) | ColumnType::Tuple(_) => false,
        ColumnType::Mapping(..) | ColumnType::LowCardinality(_) => false,
        ColumnType::SimpleAggregateFunction(_) => false,
        _ => true,
    }
}

/// A time zone that can stand between quotes as it is.
pub open spec fn is_zone(s: Seq<char>) -> bool {
    forall|i: int| 0 <= i < s.len() ==> #[trigger] s[i] != '\'' && s[i] != '\\'
}

/// A type that a server can announce by its name.
pub open spec fn has_name(t: Type) -> bool
    decreases t,
{
    match t {
        Type::Plain(p) => is_plain(p),
        Type::DateTime64 { timezone, .. } => timezone matches Some(tz) ==> is_zone(tz),
        Type::Json(name) => name == "JSON"@,
        Type::Dynamic(name) => name == "Dynamic"@,
        Type::Variant { name, types } => types.len() > 0 && have_names(types) && name == applied(
            "Variant"@,
            listed(names_of(types)),
        ),
        Type::Nullable(inner) => has_name(*inner),
        Type::Array(inner) => has_name(*inner),
        Type::Tuple(types) => types.len() > 0 && have_names(types),
        Type::Mapping(k, v) => has_name(*k) && has_name(*v),
        Type::LowCardinality(inner) => has_name(*inner),
        Type::SimpleAggregateFunction(inner) => has_name(*inner),
    }
}

/// Types that a server can announce by their names.
pub open spec fn have_names(types: Seq<Type>) -> bool
    decreases types,
{
    types.len() > 0 ==> have_names(types.drop_last()) && has_name(types.last())
}

/// The reader of a list of arguments, outside of quotes and in `depth` brackets.
spec fn at(depth: int) -> ArgScan {
    ArgScan { depth, quote: None, escaped: false }
}

/// The reader after all of a text.
spec fn read(st: ArgScan, s: Seq<char>) -> ArgScan
    decreases s.len(),
{
    if s.len() == 0 {
        st
    } else {
        column_type::scan_step(read(st, s.drop_last()), s.last())
    }
}

/// The commas of a text stand in `low` brackets or more, or in quotes.
spec fn commas_above(st: ArgScan, s: Seq<char>, low: int) -> bool {
    forall|i: int|
        0 <= i < s.len() && #[trigger] s[i] == ',' ==> read(st, s.take(i)).depth >= low || read(
            st,
            s.take(i),
        ).quote is Some
}

/// A text that closes what it opens, with its commas in brackets or quotes of its own.
spec fn settles(s: Seq<char>, depth: int) -> bool {
    read(at(depth), s) == at(depth) && commas_above(at(depth), s, depth + 1)
}

/// A text that closes what it opens.
spec fn balances(s: Seq<char>, depth: int) -> bool {
    read(at(depth), s) == at(depth) && commas_above(at(depth), s, depth)
}

proof fn lemma_read_join(st: ArgScan, a: Seq<char>, b: Seq<char>)
    ensures
        read(st, a + b) == read(read(st, a), b),
    decreases b.len(),
{
    if b.len() == 0 {
        assert(a + b =~= a);
    } else {
        lemma_read_join(st, a, b.drop_last());
        assert((a + b).drop_last() =~= a + b.drop_last());
    }
}

proof fn lemma_commas_join(st: ArgScan, a: Seq<char>, b: Seq<char>, low: int)
    requires
        commas_above(st, a, low),
        commas_above(read(st, a), b, low),
    ensures
        commas_above(st, a + b, low),
{
    let s = a + b;
    assert forall|i: int| 0 <= i < s.len() && #[trigger] s[i] == ',' implies read(
        st,
        s.take(i),
    ).depth >= low || read(st, s.take(i)).quote is Some by {
        if i < a.len() {
            assert(s[i] == a[i]);
            assert(s.take(i) =~= a.take(i));
        } else {
            let j = i - a.len();
            assert(s[i] == b[j]);
            assert(s.take(i) =~= a + b.take(j));
            lemma_read_join(st, a, b.take(j));
        }
    }
}

/// A character that means nothing to the reader of a list of arguments.
pub open spec fn is_quiet(c: char) -> bool {
    c != '\'' && c != '`' && c != '(' && c != ')' && c != ','
}

/// A text without brackets, quotes and commas.
pub open spec fn all_quiet(s: Seq<char>) -> bool {
    forall|i: int| 0 <= i < s.len() ==> is_quiet(#[trigger] s[i])
}

proof fn lemma_quiet_settles(s: Seq<char>, depth: int)
    requires
        all_quiet(s),
    ensures
        settles(s, depth),
    decreases s.len(),
{
    if s.len() > 0 {
        let t = s.drop_last();
        assert forall|i: int| 0 <= i < t.len() implies is_quiet(#[trigger] t[i]) by {
            assert(t[i] == s[i]);
        }
        lemma_quiet_settles(t, depth);
        assert(is_quiet(s[s.len() - 1]));
    }
    assert forall|i: int| 0 <= i < s.len() && #[trigger] s[i] == ',' implies false by {
        assert(is_quiet(s[i]));
    }
}

proof fn lemma_one(st: ArgScan, c: char)
    ensures
        read(st, seq![c]) == column_type::scan_step(st, c),
{
    assert(seq![c].drop_last() =~= Seq::empty());
    assert(read(st, seq![c].drop_last()) == st);
}

proof fn lemma_applied_settles(head: Seq<char>, args: Seq<char>, depth: int)
    requires
        all_quiet(head),
        balances(args, depth + 1),
    ensures
        settles(applied(head, args), depth),
{
    let open = seq!['('];
    let close = seq![')'];
    lemma_quiet_settles(head, depth);
    lemma_one(at(depth), '(');
    lemma_one(at(depth + 1), ')');
    lemma_read_join(at(depth), head, open);
    lemma_read_join(at(depth), head + open, args);
    lemma_read_join(at(depth), head + open + args, close);
    lemma_commas_join(at(depth), head, open, depth + 1);
    lemma_commas_join(at(depth), head + open, args, depth + 1);
    lemma_commas_join(at(depth), head + open + args, close, depth + 1);
}

proof fn lemma_settles_balances(s: Seq<char>, depth: int)
    requires
        settles(s, depth),
    ensures
        balances(s, depth),
{
    assert forall|i: int| 0 <= i < s.len() && #[trigger] s[i] == ',' implies read(
        at(depth),
        s.take(i),
    ).depth >= depth || read(at(depth), s.take(i)).quote is Some by {
        assert(read(at(depth), s.take(i)).depth >= depth + 1 || read(
            at(depth),
            s.take(i),
        ).quote is Some);
    }
}

proof fn lemma_gap(depth: int)
    ensures
        read(at(depth), seq![',', ' ']) == at(depth),
        commas_above(at(depth), seq![',', ' '], depth),
{
    let gap = seq![',', ' '];
    assert(gap =~= seq![','] + seq![' ']);
    lemma_one(at(depth), ',');
    lemma_one(at(depth), ' ');
    lemma_read_join(at(depth), seq![','], seq![' ']);
    assert(gap.take(0) =~= Seq::empty());
}

proof fn lemma_list_balances(parts: Seq<Seq<char>>, depth: int)
    requires
        forall|i: int| 0 <= i < parts.len() ==> settles(#[trigger] parts[i], depth),
    ensures
        balances(listed(parts), depth),
    decreases parts.len(),
{
    if parts.len() == 1 {
        lemma_settles_balances(parts[0], depth);
    } else if parts.len() > 1 {
        let rest = parts.drop_last();
        assert forall|i: int| 0 <= i < rest.len() implies settles(#[trigger] rest[i], depth) by {
            assert(rest[i] == parts[i]);
        }
        lemma_list_balances(rest, depth);
        let gap = seq![',', ' '];
        let last = parts[parts.len() - 1];
        lemma_gap(depth);
        lemma_settles_balances(last, depth);
        lemma_read_join(at(depth), listed(rest), gap);
        lemma_commas_join(at(depth), listed(rest), gap, depth);
        lemma_read_join(at(depth), listed(rest) + gap, last);
        lemma_commas_join(at(depth), listed(rest) + gap, last, depth);
    }
}

proof fn lemma_zone_reads(s: Seq<char>, depth: int)
    requires
        is_zone(s),
    ensures
        read(ArgScan { quote: Some('\''), ..at(depth) }, s) == (ArgScan {
            quote: Some('\''),
            ..at(depth)
        }),
    decreases s.len(),
{
    if s.len() > 0 {
        let t = s.drop_last();
        assert forall|i: int| 0 <= i < t.len() implies #[trigger] t[i] != '\'' && t[i] != '\\' by {
            assert(t[i] == s[i]);
        }
        lemma_zone_reads(t, depth);
        assert(s[s.len() - 1] != '\'');
    }
}

proof fn lemma_quotes_settle(s: Seq<char>, depth: int)
    requires
        is_zone(s),
    ensures
        settles(in_quotes(s), depth),
{
    let quote = seq!['\''];
    let inside = ArgScan { quote: Some('\''), ..at(depth) };
    lemma_one(at(depth), '\'');
    lemma_one(inside, '\'');
    lemma_zone_reads(s, depth);
    lemma_read_join(at(depth), quote, s);
    lemma_read_join(at(depth), quote + s, quote);
    assert forall|i: int| 0 <= i < s.len() && #[trigger] s[i] == ',' implies read(
        inside,
        s.take(i),
    ).quote is Some by {
        assert(is_zone(s.take(i))) by {
            assert forall|j: int| 0 <= j < i implies #[trigger] s.take(i)[j] != '\'' && s.take(
                i,
            )[j] != '\\' by {
                assert(s.take(i)[j] == s[j]);
            }
        }
        lemma_zone_reads(s.take(i), depth);
    }
    lemma_commas_join(at(depth), quote, s, depth + 1);
    lemma_commas_join(at(depth), quote + s, quote, depth + 1);
}

proof fn lemma_scan_reads(s: Seq<char>, i: int)
    requires
        0 <= i <= s.len(),
    ensures
        column_type::scan(s, i) == read(at(0), s.take(i)),
    decreases i,
{
    if i > 0 {
        lemma_scan_reads(s, i - 1);
        assert(s.take(i).drop_last() =~= s.take(i - 1));
    }
}

/// The arguments `a` and then, behind a comma, the argument `b`.
spec fn with_last(a: Seq<char>, b: Seq<char>) -> Seq<char> {
    a + seq![','] + b
}

proof fn lemma_separators(a: Seq<char>, b: Seq<char>, i: int)
    requires
        read(at(0), a) == at(0),
        settles(b, 0),
        0 <= i < with_last(a, b).len(),
    ensures
        i < a.len() ==> column_type::is_separator(with_last(a, b), i) == column_type::is_separator(
            a,
            i,
        ),
        i == a.len() ==> column_type::is_separator(with_last(a, b), i),
        i > a.len() ==> !column_type::is_separator(with_last(a, b), i),
{
    let s = with_last(a, b);
    lemma_scan_reads(s, i);
    if i < a.len() {
        lemma_scan_reads(a, i);
        assert(s.take(i) =~= a.take(i));
    } else if i == a.len() {
        assert(s.take(i) =~= a);
    } else {
        let j = i - a.len() - 1;
        assert(s.take(i) =~= (a + seq![',']) + b.take(j));
        lemma_one(at(0), ',');
        lemma_read_join(at(0), a, seq![',']);
        lemma_read_join(at(0), a + seq![','], b.take(j));
        assert(s[i] == b[j]);
    }
}

proof fn lemma_next_in_front(a: Seq<char>, b: Seq<char>, i: int)
    requires
        read(at(0), a) == at(0),
        settles(b, 0),
        0 <= i <= a.len(),
    ensures
        column_type::next_separator(with_last(a, b), i) == column_type::next_separator(a, i),
        i <= column_type::next_separator(a, i) <= a.len(),
    decreases a.len() - i,
{
    lemma_separators(a, b, i);
    if i < a.len() && !column_type::is_separator(a, i) {
        lemma_next_in_front(a, b, i + 1);
    }
}

proof fn lemma_next_behind(a: Seq<char>, b: Seq<char>, i: int)
    requires
        read(at(0), a) == at(0),
        settles(b, 0),
        a.len() < i <= with_last(a, b).len(),
    ensures
        column_type::next_separator(with_last(a, b), i) == with_last(a, b).len(),
    decreases with_last(a, b).len() - i,
{
    if i < with_last(a, b).len() {
        lemma_separators(a, b, i);
        lemma_next_behind(a, b, i + 1);
    }
}

proof fn lemma_args_of_more(a: Seq<char>, b: Seq<char>, start: int)
    requires
        read(at(0), a) == at(0),
        settles(b, 0),
        0 <= start <= a.len(),
    ensures
        column_type::args_from(with_last(a, b), start) == column_type::args_from(a, start).push(b),
    decreases a.len() - start,
{
    let s = with_last(a, b);
    let end = column_type::next_separator(a, start);
    lemma_next_in_front(a, b, start);
    if end < a.len() {
        lemma_args_of_more(a, b, end + 1);
        assert(s.subrange(start, end) =~= a.subrange(start, end));
        assert(column_type::args_from(s, start) =~= seq![s.subrange(start, end)]
            + column_type::args_from(s, end + 1));
        assert(column_type::args_from(a, start) =~= seq![a.subrange(start, end)]
            + column_type::args_from(a, end + 1));
    } else {
        let k = a.len() as int + 1;
        lemma_next_behind(a, b, k);
        assert(s.subrange(k, s.len() as int) =~= b);
        assert(s.subrange(start, end) =~= a.subrange(start, a.len() as int));
        assert(column_type::args_from(s, k) =~= seq![b]);
        assert(column_type::args_from(s, start) =~= seq![s.subrange(start, end)]
            + column_type::args_from(s, end + 1));
        assert(column_type::args_from(a, start) =~= seq![a.subrange(start, a.len() as int)]);
    }
}

proof fn lemma_one_arg(s: Seq<char>, i: int)
    requires
        settles(s, 0),
        0 <= i <= s.len(),
    ensures
        column_type::next_separator(s, i) == s.len(),
    decreases s.len() - i,
{
    if i < s.len() {
        lemma_scan_reads(s, i);
        lemma_one_arg(s, i + 1);
    }
}

/// Texts as they stand behind one another in a list: all but the first with a space in front.
spec fn spaced(parts: Seq<Seq<char>>) -> Seq<Seq<char>> {
    Seq::new(
        parts.len(),
        |i: int|
            if i == 0 {
                parts[i]
            } else {
                seq![' '] + parts[i]
            },
    )
}

proof fn lemma_lists_split(parts: Seq<Seq<char>>)
    requires
        parts.len() > 0,
        forall|i: int| 0 <= i < parts.len() ==> settles(#[trigger] parts[i], 0),
    ensures
        column_type::split_args(listed(parts)) == spaced(parts),
    decreases parts.len(),
{
    let s = listed(parts);
    if parts.len() == 1 {
        assert(settles(parts[0], 0));
        lemma_one_arg(s, 0);
        assert(s.subrange(0, s.len() as int) =~= s);
        assert(column_type::args_from(s, 0) =~= spaced(parts));
    } else {
        let rest = parts.drop_last();
        let last = parts[parts.len() - 1];
        assert forall|i: int| 0 <= i < rest.len() implies settles(#[trigger] rest[i], 0) by {
            assert(rest[i] == parts[i]);
        }
        lemma_lists_split(rest);
        lemma_list_balances(rest, 0);
        let b = seq![' '] + last;
        assert(all_quiet(seq![' ']));
        lemma_quiet_settles(seq![' '], 0);
        lemma_read_join(at(0), seq![' '], last);
        lemma_commas_join(at(0), seq![' '], last, 1);
        assert(s =~= with_last(listed(rest), b));
        lemma_args_of_more(listed(rest), b, 0);
        assert(spaced(parts) =~= spaced(rest).push(b));
    }
}

/// A text with no white space at its ends.
spec fn has_edges(s: Seq<char>) -> bool {
    s.len() > 0 && !text::is_white(s[0]) && !text::is_white(s.last())
}

proof fn lemma_space_is_trimmed(s: Seq<char>)
    requires
        has_edges(s),
    ensures
        text::trimmed(seq![' '] + s) == s,
        text::trimmed(s) == s,
{
    let t = seq![' '] + s;
    assert(t[0] == ' ');
    assert(t.skip(1) =~= s);
    reveal_with_fuel(text::trimmed_start, 2);
    text::lemma_trimmed_already(s);
}

proof fn lemma_numbers(n: nat, max: nat, depth: int)
    requires
        n <= max,
    ensures
        settles(text::decimal(n), depth),
        has_edges(text::decimal(n)),
        column_type::number_arg(text::decimal(n), max) == Some(n),
        column_type::number_arg(seq![' '] + text::decimal(n), max) == Some(n),
{
    let s = text::decimal(n);
    text::decimal_reads_back(n);
    assert forall|i: int| 0 <= i < s.len() implies is_quiet(#[trigger] s[i]) && !text::is_white(
        s[i],
    ) by {
        assert(text::is_digit(s[i]));
    }
    lemma_quiet_settles(s, depth);
    lemma_space_is_trimmed(s);
    assert(text::is_digit(s[0]));
}

/// A word that can stand before arguments.
spec fn is_head(s: Seq<char>) -> bool {
    all_quiet(s) && has_edges(s)
}

proof fn lemma_applied_splits(head: Seq<char>, args: Seq<char>)
    requires
        is_head(head),
    ensures
        column_type::head_and_args(applied(head, args)) == Some((head, args)),
        has_edges(applied(head, args)),
        text::trimmed(applied(head, args)) == applied(head, args),
{
    let s = applied(head, args);
    let k = head.len() as int;
    assert(s[0] == head[0]);
    assert(s.last() == ')');
    text::lemma_trimmed_already(s);
    assert(s.subrange(k, k + 1) =~= seq!['(']);
    assert forall|j: int| 0 <= j < k implies !text::occurs_at(s, seq!['('], j) by {
        assert(s.subrange(j, j + 1)[0] == head[j]);
        assert(is_quiet(head[j]));
        assert(seq!['('][0] == '(');
    }
    text::lemma_first_index_is(s, seq!['('], 0, k);
    assert(s.take(k) =~= head);
    assert(s.subrange(k + 1, s.len() - 1) =~= args);
}

proof fn lemma_closed_is_no_word(s: Seq<char>)
    requires
        s.len() > 0,
        s.last() == ')',
    ensures
        column_type::named_type(s) is None,
{
    reveal_strlit("UInt8");
    reveal_strlit("UInt16");
    reveal_strlit("UInt32");
    reveal_strlit("UInt64");
    reveal_strlit("UInt128");
    reveal_strlit("UInt256");
    reveal_strlit("Int8");
    reveal_strlit("Int16");
    reveal_strlit("Int32");
    reveal_strlit("Int64");
    reveal_strlit("Int128");
    reveal_strlit("Int256");
    reveal_strlit("Float32");
    reveal_strlit("Float64");
    reveal_strlit("String");
    reveal_strlit("Date");
    reveal_strlit("Date32");
    reveal_strlit("DateTime");
    reveal_strlit("UUID");
    reveal_strlit("IPv4");
    reveal_strlit("IPv6");
    reveal_strlit("BFloat16");
    reveal_strlit("Time");
    reveal_strlit("Point");
    reveal_strlit("Ring");
    reveal_strlit("LineString");
    reveal_strlit("MultiLineString");
    reveal_strlit("Polygon");
    reveal_strlit("MultiPolygon");
    reveal_strlit("Bool");
}

proof fn lemma_heads()
    ensures
        is_head("DateTime64"@),
        is_head("Nullable"@),
        is_head("Array"@),
        is_head("LowCardinality"@),
        is_head("Tuple"@),
        is_head("Variant"@),
        is_head("JSON"@),
        is_head("Dynamic"@),
        is_head("Map"@),
        is_head("SimpleAggregateFunction"@),
        is_head("FixedString"@),
        is_head("DateTime"@),
        is_head("Time64"@),
        is_head("Enum8"@),
        is_head("Enum16"@),
        is_head("Decimal32"@),
        is_head("Decimal64"@),
        is_head("Decimal128"@),
        is_head("Decimal256"@),
        is_head("Decimal"@),
{
    assert(is_head("DateTime64"@)) by {
        reveal_strlit("DateTime64");
    }
    assert(is_head("Nullable"@)) by {
        reveal_strlit("Nullable");
    }
    assert(is_head("Array"@)) by {
        reveal_strlit("Array");
    }
    assert(is_head("LowCardinality"@)) by {
        reveal_strlit("LowCardinality");
    }
    assert(is_head("Tuple"@)) by {
        reveal_strlit("Tuple");
    }
    assert(is_head("Variant"@)) by {
        reveal_strlit("Variant");
    }
    assert(is_head("JSON"@)) by {
        reveal_strlit("JSON");
    }
    assert(is_head("Dynamic"@)) by {
        reveal_strlit("Dynamic");
    }
    assert(is_head("Map"@)) by {
        reveal_strlit("Map");
    }
    assert(is_head("SimpleAggregateFunction"@)) by {
        reveal_strlit("SimpleAggregateFunction");
    }
    assert(is_head("FixedString"@)) by {
        reveal_strlit("FixedString");
    }
    assert(is_head("DateTime"@)) by {
        reveal_strlit("DateTime");
    }
    assert(is_head("Time64"@)) by {
        reveal_strlit("Time64");
    }
    assert(is_head("Enum8"@)) by {
        reveal_strlit("Enum8");
    }
    assert(is_head("Enum16"@)) by {
        reveal_strlit("Enum16");
    }
    assert(is_head("Decimal32"@)) by {
        reveal_strlit("Decimal32");
    }
    assert(is_head("Decimal64"@)) by {
        reveal_strlit("Decimal64");
    }
    assert(is_head("Decimal128"@)) by {
        reveal_strlit("Decimal128");
    }
    assert(is_head("Decimal256"@)) by {
        reveal_strlit("Decimal256");
    }
    assert(is_head("Decimal"@)) by {
        reveal_strlit("Decimal");
    }
}

proof fn lemma_words(p: ColumnType)
    requires
        is_plain(p),
        !(p is Decimal32 || p is Decimal64 || p is Decimal128 || p is Decimal256),
        !(p is FixedString || p is Time64 || p is Enum8 || p is Enum16),
    ensures
        is_head(plain_name(p)),
{
    match p {
        ColumnType::UInt8 => {
            reveal_strlit("UInt8");
        },
        ColumnType::UInt16 => {
            reveal_strlit("UInt16");
        },
        ColumnType::UInt32 => {
            reveal_strlit("UInt32");
        },
        ColumnType::UInt64 => {
            reveal_strlit("UInt64");
        },
        ColumnType::UInt128 => {
            reveal_strlit("UInt128");
        },
        ColumnType::UInt256 => {
            reveal_strlit("UInt256");
        },
        ColumnType::Int8 => {
            reveal_strlit("Int8");
        },
        ColumnType::Int16 => {
            reveal_strlit("Int16");
        },
        ColumnType::Int32 => {
            reveal_strlit("Int32");
        },
        ColumnType::Int64 => {
            reveal_strlit("Int64");
        },
        ColumnType::Int128 => {
            reveal_strlit("Int128");
        },
        ColumnType::Int256 => {
            reveal_strlit("Int256");
        },
        ColumnType::Float32 => {
            reveal_strlit("Float32");
        },
        ColumnType::Float64 => {
            reveal_strlit("Float64");
        },
        ColumnType::String => {
            reveal_strlit("String");
        },
        ColumnType::Date => {
            reveal_strlit("Date");
        },
        ColumnType::Date32 => {
            reveal_strlit("Date32");
        },
        ColumnType::DateTime => {
            reveal_strlit("DateTime");
        },
        ColumnType::Uuid => {
            reveal_strlit("UUID");
        },
        ColumnType::IPv4 => {
            reveal_strlit("IPv4");
        },
        ColumnType::IPv6 => {
            reveal_strlit("IPv6");
        },
        ColumnType::BFloat16 => {
            reveal_strlit("BFloat16");
        },
        ColumnType::Time => {
            reveal_strlit("Time");
        },
        ColumnType::Point => {
            reveal_strlit("Point");
        },
        ColumnType::Ring => {
            reveal_strlit("Ring");
        },
        ColumnType::LineString => {
            reveal_strlit("LineString");
        },
        ColumnType::MultiLineString => {
            reveal_strlit("MultiLineString");
        },
        ColumnType::Polygon => {
            reveal_strlit("Polygon");
        },
        ColumnType::MultiPolygon => {
            reveal_strlit("MultiPolygon");
        },
        _ => {},
    }
}

proof fn lemma_word_lengths()
    ensures
        "UInt8"@.len() == 5,
        "Bool"@.len() == 4,
        "UInt16"@.len() == 6,
        "UInt32"@.len() == 6,
        "UInt64"@.len() == 6,
        "UInt128"@.len() == 7,
        "UInt256"@.len() == 7,
        "Int8"@.len() == 4,
        "Int16"@.len() == 5,
        "Int32"@.len() == 5,
        "Int64"@.len() == 5,
        "Int128"@.len() == 6,
        "Int256"@.len() == 6,
        "Float32"@.len() == 7,
        "Float64"@.len() == 7,
        "String"@.len() == 6,
        "Date"@.len() == 4,
        "Date32"@.len() == 6,
        "DateTime"@.len() == 8,
        "UUID"@.len() == 4,
        "IPv4"@.len() == 4,
        "IPv6"@.len() == 4,
        "BFloat16"@.len() == 8,
        "Time"@.len() == 4,
        "Point"@.len() == 5,
        "Ring"@.len() == 4,
        "LineString"@.len() == 10,
        "MultiLineString"@.len() == 15,
        "Polygon"@.len() == 7,
        "MultiPolygon"@.len() == 12,
        "JSON"@[0] != "Bool"@[0],
        "JSON"@[0] != "Int8"@[0],
        "JSON"@[0] != "Date"@[0],
        "JSON"@[0] != "UUID"@[0],
        "JSON"@[0] != "IPv4"@[0],
        "JSON"@[0] != "IPv6"@[0],
        "JSON"@[0] != "Time"@[0],
        "JSON"@[0] != "Ring"@[0],
        "Dynamic"@[0] != "UInt128"@[0],
        "Dynamic"@[0] != "UInt256"@[0],
        "Dynamic"@[0] != "Float32"@[0],
        "Dynamic"@[0] != "Float64"@[0],
        "Dynamic"@[0] != "Polygon"@[0],
{
    reveal_strlit("UInt8");
    reveal_strlit("Bool");
    reveal_strlit("UInt16");
    reveal_strlit("UInt32");
    reveal_strlit("UInt64");
    reveal_strlit("UInt128");
    reveal_strlit("UInt256");
    reveal_strlit("Int8");
    reveal_strlit("Int16");
    reveal_strlit("Int32");
    reveal_strlit("Int64");
    reveal_strlit("Int128");
    reveal_strlit("Int256");
    reveal_strlit("Float32");
    reveal_strlit("Float64");
    reveal_strlit("String");
    reveal_strlit("Date");
    reveal_strlit("Date32");
    reveal_strlit("DateTime");
    reveal_strlit("UUID");
    reveal_strlit("IPv4");
    reveal_strlit("IPv6");
    reveal_strlit("BFloat16");
    reveal_strlit("Time");
    reveal_strlit("Point");
    reveal_strlit("Ring");
    reveal_strlit("LineString");
    reveal_strlit("MultiLineString");
    reveal_strlit("Polygon");
    reveal_strlit("MultiPolygon");
    reveal_strlit("JSON");
    reveal_strlit("Dynamic");
}

#[verifier::rlimit(40)]
proof fn lemma_words_read_back(p: ColumnType)
    requires
        is_plain(p),
        !(p is Decimal32 || p is Decimal64 || p is Decimal128 || p is Decimal256),
        !(p is FixedString || p is Time64 || p is Enum8 || p is Enum16),
    ensures
        column_type::named_type(plain_name(p)) == Some(p),
{
    reveal_strlit("UInt8");
    reveal_strlit("Bool");
    reveal_strlit("UInt16");
    reveal_strlit("UInt32");
    reveal_strlit("UInt64");
    reveal_strlit("UInt128");
    reveal_strlit("UInt256");
    reveal_strlit("Int8");
    reveal_strlit("Int16");
    reveal_strlit("Int32");
    reveal_strlit("Int64");
    reveal_strlit("Int128");
    reveal_strlit("Int256");
    reveal_strlit("Float32");
    reveal_strlit("Float64");
    reveal_strlit("String");
    reveal_strlit("Date");
    reveal_strlit("Date32");
    reveal_strlit("DateTime");
    reveal_strlit("UUID");
    reveal_strlit("IPv4");
    reveal_strlit("IPv6");
    reveal_strlit("BFloat16");
    reveal_strlit("Time");
    reveal_strlit("Point");
    reveal_strlit("Ring");
    reveal_strlit("LineString");
    reveal_strlit("MultiLineString");
    reveal_strlit("Polygon");
    reveal_strlit("MultiPolygon");
    lemma_word_lengths();
    match p {
        ColumnType::UInt32 => {
            assert("UInt32"@[4] != "UInt16"@[4]);
        },
        ColumnType::UInt64 => {
            assert("UInt64"@[4] != "UInt16"@[4]);
            assert("UInt64"@[4] != "UInt32"@[4]);
        },
        ColumnType::UInt256 => {
            assert("UInt256"@[4] != "UInt128"@[4]);
        },
        ColumnType::Int8 => {
            assert("Int8"@[0] != "Bool"@[0]);
        },
        ColumnType::Int16 => {
            assert("Int16"@[0] != "UInt8"@[0]);
        },
        ColumnType::Int32 => {
            assert("Int32"@[0] != "UInt8"@[0]);
            assert("Int32"@[3] != "Int16"@[3]);
        },
        ColumnType::Int64 => {
            assert("Int64"@[0] != "UInt8"@[0]);
            assert("Int64"@[3] != "Int16"@[3]);
            assert("Int64"@[3] != "Int32"@[3]);
        },
        ColumnType::Int128 => {
            assert("Int128"@[0] != "UInt16"@[0]);
            assert("Int128"@[0] != "UInt32"@[0]);
            assert("Int128"@[0] != "UInt64"@[0]);
        },
        ColumnType::Int256 => {
            assert("Int256"@[0] != "UInt16"@[0]);
            assert("Int256"@[0] != "UInt32"@[0]);
            assert("Int256"@[0] != "UInt64"@[0]);
            assert("Int256"@[3] != "Int128"@[3]);
        },
        ColumnType::Float32 => {
            assert("Float32"@[0] != "UInt128"@[0]);
            assert("Float32"@[0] != "UInt256"@[0]);
        },
        ColumnType::Float64 => {
            assert("Float64"@[0] != "UInt128"@[0]);
            assert("Float64"@[0] != "UInt256"@[0]);
            assert("Float64"@[5] != "Float32"@[5]);
        },
        ColumnType::String => {
            assert("String"@[0] != "UInt16"@[0]);
            assert("String"@[0] != "UInt32"@[0]);
            assert("String"@[0] != "UInt64"@[0]);
            assert("String"@[0] != "Int128"@[0]);
            assert("String"@[0] != "Int256"@[0]);
        },
        ColumnType::Date => {
            assert("Date"@[0] != "Bool"@[0]);
            assert("Date"@[0] != "Int8"@[0]);
        },
        ColumnType::Date32 => {
            assert("Date32"@[0] != "UInt16"@[0]);
            assert("Date32"@[0] != "UInt32"@[0]);
            assert("Date32"@[0] != "UInt64"@[0]);
            assert("Date32"@[0] != "Int128"@[0]);
            assert("Date32"@[0] != "Int256"@[0]);
            assert("Date32"@[0] != "String"@[0]);
        },
        ColumnType::Uuid => {
            assert("UUID"@[0] != "Bool"@[0]);
            assert("UUID"@[0] != "Int8"@[0]);
            assert("UUID"@[0] != "Date"@[0]);
        },
        ColumnType::IPv4 => {
            assert("IPv4"@[0] != "Bool"@[0]);
            assert("IPv4"@[1] != "Int8"@[1]);
            assert("IPv4"@[0] != "Date"@[0]);
            assert("IPv4"@[0] != "UUID"@[0]);
        },
        ColumnType::IPv6 => {
            assert("IPv6"@[0] != "Bool"@[0]);
            assert("IPv6"@[1] != "Int8"@[1]);
            assert("IPv6"@[0] != "Date"@[0]);
            assert("IPv6"@[0] != "UUID"@[0]);
            assert("IPv6"@[3] != "IPv4"@[3]);
        },
        ColumnType::BFloat16 => {
            assert("BFloat16"@[0] != "DateTime"@[0]);
        },
        ColumnType::Time => {
            assert("Time"@[0] != "Bool"@[0]);
            assert("Time"@[0] != "Int8"@[0]);
            assert("Time"@[0] != "Date"@[0]);
            assert("Time"@[0] != "UUID"@[0]);
            assert("Time"@[0] != "IPv4"@[0]);
            assert("Time"@[0] != "IPv6"@[0]);
        },
        ColumnType::Point => {
            assert("Point"@[0] != "UInt8"@[0]);
            assert("Point"@[0] != "Int16"@[0]);
            assert("Point"@[0] != "Int32"@[0]);
            assert("Point"@[0] != "Int64"@[0]);
        },
        ColumnType::Ring => {
            assert("Ring"@[0] != "Bool"@[0]);
            assert("Ring"@[0] != "Int8"@[0]);
            assert("Ring"@[0] != "Date"@[0]);
            assert("Ring"@[0] != "UUID"@[0]);
            assert("Ring"@[0] != "IPv4"@[0]);
            assert("Ring"@[0] != "IPv6"@[0]);
            assert("Ring"@[0] != "Time"@[0]);
        },
        ColumnType::Polygon => {
            assert("Polygon"@[0] != "UInt128"@[0]);
            assert("Polygon"@[0] != "UInt256"@[0]);
            assert("Polygon"@[0] != "Float32"@[0]);
            assert("Polygon"@[0] != "Float64"@[0]);
        },
        _ => {},
    }
}

proof fn lemma_heads_differ()
    ensures
        "DateTime64"@.len() == 10,
        "Nullable"@.len() == 8,
        "Array"@.len() == 5,
        "LowCardinality"@.len() == 14,
        "Tuple"@.len() == 5,
        "Variant"@.len() == 7,
        "JSON"@.len() == 4,
        "Dynamic"@.len() == 7,
        "Map"@.len() == 3,
        "SimpleAggregateFunction"@.len() == 23,
        "FixedString"@.len() == 11,
        "DateTime"@.len() == 8,
        "Time64"@.len() == 6,
        "Enum8"@.len() == 5,
        "Enum16"@.len() == 6,
        "Decimal32"@.len() == 9,
        "Decimal64"@.len() == 9,
        "Decimal128"@.len() == 10,
        "Decimal256"@.len() == 10,
        "Decimal"@.len() == 7,
        "Tuple"@[0] != "Array"@[0],
        "Dynamic"@[0] != "Variant"@[0],
        "DateTime"@[0] != "Nullable"@[0],
        "Enum8"@[0] != "Array"@[0],
        "Enum8"@[0] != "Tuple"@[0],
        "Enum16"@[0] != "Time64"@[0],
        "Decimal64"@[7] != "Decimal32"@[7],
        "Decimal128"@[1] != "DateTime64"@[1],
        "Decimal256"@[1] != "DateTime64"@[1],
        "Decimal256"@[7] != "Decimal128"@[7],
        "Decimal"@[0] != "Variant"@[0],
        "Decimal"@[1] != "Dynamic"@[1],
{
    reveal_strlit("DateTime64");
    reveal_strlit("Nullable");
    reveal_strlit("Array");
    reveal_strlit("LowCardinality");
    reveal_strlit("Tuple");
    reveal_strlit("Variant");
    reveal_strlit("JSON");
    reveal_strlit("Dynamic");
    reveal_strlit("Map");
    reveal_strlit("SimpleAggregateFunction");
    reveal_strlit("FixedString");
    reveal_strlit("DateTime");
    reveal_strlit("Time64");
    reveal_strlit("Enum8");
    reveal_strlit("Enum16");
    reveal_strlit("Decimal32");
    reveal_strlit("Decimal64");
    reveal_strlit("Decimal128");
    reveal_strlit("Decimal256");
    reveal_strlit("Decimal");
}

/// The name of a type closes what it opens and has no white space at its ends.
proof fn lemma_name(t: Type, depth: int)
    requires
        has_name(t),
    ensures
        settles(name_of(t), depth),
        has_edges(name_of(t)),
    decreases t,
{
    lemma_heads();
    match t {
        Type::Plain(p) => {
            lemma_plain_name(p, depth);
        },
        Type::DateTime64 { precision, timezone } => {
            let digits = text::decimal(precision as nat);
            lemma_numbers(precision as nat, 255, depth + 1);
            match timezone {
                None => {
                    lemma_settles_balances(digits, depth + 1);
                    lemma_applied(t, "DateTime64"@, digits, depth);
                },
                Some(tz) => {
                    let parts = seq![digits, in_quotes(tz)];
                    lemma_quotes_settle(tz, depth + 1);
                    lemma_list_balances(parts, depth + 1);
                    lemma_applied(t, "DateTime64"@, listed(parts), depth);
                },
            }
        },
        Type::Json(name) => {
            lemma_quiet_settles(name, depth);
        },
        Type::Dynamic(name) => {
            lemma_quiet_settles(name, depth);
        },
        Type::Variant { name, types } => {
            lemma_names(types, depth + 1);
            lemma_list_balances(names_of(types), depth + 1);
            lemma_applied(t, "Variant"@, listed(names_of(types)), depth);
        },
        Type::Nullable(inner) => {
            lemma_name(*inner, depth + 1);
            lemma_settles_balances(name_of(*inner), depth + 1);
            lemma_applied(t, "Nullable"@, name_of(*inner), depth);
        },
        Type::Array(inner) => {
            lemma_name(*inner, depth + 1);
            lemma_settles_balances(name_of(*inner), depth + 1);
            lemma_applied(t, "Array"@, name_of(*inner), depth);
        },
        Type::Tuple(types) => {
            lemma_names(types, depth + 1);
            lemma_list_balances(names_of(types), depth + 1);
            lemma_applied(t, "Tuple"@, listed(names_of(types)), depth);
        },
        Type::Mapping(k, v) => {
            let parts = seq![name_of(*k), name_of(*v)];
            lemma_name(*k, depth + 1);
            lemma_name(*v, depth + 1);
            lemma_list_balances(parts, depth + 1);
            lemma_applied(t, "Map"@, listed(parts), depth);
        },
        Type::LowCardinality(inner) => {
            lemma_name(*inner, depth + 1);
            lemma_settles_balances(name_of(*inner), depth + 1);
            lemma_applied(t, "LowCardinality"@, name_of(*inner), depth);
        },
        Type::SimpleAggregateFunction(inner) => {
            let parts = seq!["any"@, name_of(*inner)];
            reveal_strlit("any");
            lemma_quiet_settles("any"@, depth + 1);
            lemma_name(*inner, depth + 1);
            lemma_list_balances(parts, depth + 1);
            lemma_applied(t, "SimpleAggregateFunction"@, listed(parts), depth);
        },
    }
}

proof fn lemma_applied(t: Type, head: Seq<char>, args: Seq<char>, depth: int)
    requires
        is_head(head),
        balances(args, depth + 1),
        name_of(t) == applied(head, args),
    ensures
        settles(name_of(t), depth),
        has_edges(name_of(t)),
{
    lemma_applied_settles(head, args, depth);
    lemma_applied_splits(head, args);
}

proof fn lemma_plain_name(p: ColumnType, depth: int)
    requires
        is_plain(p),
    ensures
        settles(plain_name(p), depth),
        has_edges(plain_name(p)),
{
    lemma_heads();
    let t = Type::Plain(p);
    match p {
        ColumnType::Decimal32 { precision, scale }
        | ColumnType::Decimal64 { precision, scale }
        | ColumnType::Decimal128 { precision, scale }
        | ColumnType::Decimal256 { precision, scale } => {
            let parts = seq![text::decimal(precision as nat), text::decimal(scale as nat)];
            lemma_numbers(precision as nat, 255, depth + 1);
            lemma_numbers(scale as nat, 255, depth + 1);
            lemma_list_balances(parts, depth + 1);
            lemma_applied(t, "Decimal"@, listed(parts), depth);
        },
        ColumnType::FixedString(width) => {
            lemma_numbers(width as nat, usize::MAX as nat, depth + 1);
            lemma_settles_balances(text::decimal(width as nat), depth + 1);
            lemma_applied(t, "FixedString"@, text::decimal(width as nat), depth);
        },
        ColumnType::Time64 { precision } => {
            lemma_numbers(precision as nat, 255, depth + 1);
            lemma_settles_balances(text::decimal(precision as nat), depth + 1);
            lemma_applied(t, "Time64"@, text::decimal(precision as nat), depth);
        },
        ColumnType::Enum8 => {
            lemma_quiet_settles(Seq::empty(), depth + 1);
            lemma_settles_balances(Seq::empty(), depth + 1);
            lemma_applied(t, "Enum8"@, Seq::empty(), depth);
        },
        ColumnType::Enum16 => {
            lemma_quiet_settles(Seq::empty(), depth + 1);
            lemma_settles_balances(Seq::empty(), depth + 1);
            lemma_applied(t, "Enum16"@, Seq::empty(), depth);
        },
        _ => {
            lemma_words(p);
            lemma_quiet_settles(plain_name(p), depth);
        },
    }
}

proof fn lemma_names(types: Seq<Type>, depth: int)
    requires
        have_names(types),
    ensures
        names_of(types).len() == types.len(),
        forall|i: int|
            0 <= i < types.len() ==> settles(#[trigger] names_of(types)[i], depth) && has_edges(
                names_of(types)[i],
            ) && names_of(types)[i] == name_of(types[i]),
    decreases types,
{
    if types.len() > 0 {
        lemma_names(types.drop_last(), depth);
        lemma_name(types.last(), depth);
        assert forall|i: int| 0 <= i < types.len() implies settles(
            #[trigger] names_of(types)[i],
            depth,
        ) && has_edges(names_of(types)[i]) && names_of(types)[i] == name_of(types[i]) by {
            if i < types.len() - 1 {
                assert(names_of(types)[i] == names_of(types.drop_last())[i]);
            }
        }
    }
}

proof fn lemma_named_and_trimmed(s: Seq<char>, levels: nat)
    requires
        has_edges(s),
    ensures
        column_type::type_named(seq![' '] + s, levels) == column_type::type_named(s, levels),
{
    lemma_space_is_trimmed(s);
}

proof fn lemma_unfolds(head: Seq<char>, args: Seq<char>, levels: nat)
    requires
        is_head(head),
        levels > 0,
    ensures
        ({
            let below = (levels - 1) as nat;
            let r = column_type::type_named(applied(head, args), levels);
            let inner = column_type::type_named(args, below);
            &&& head == "DateTime64"@ ==> r == column_type::datetime64_type(args)
            &&& head == "Nullable"@ ==> (inner matches Some(t) ==> r == Some(
                Type::Nullable(Box::new(t)),
            ))
            &&& head == "Array"@ ==> (inner matches Some(t) ==> r == Some(
                Type::Array(Box::new(t)),
            ))
            &&& head == "LowCardinality"@ ==> (inner matches Some(t) ==> r == Some(
                Type::LowCardinality(Box::new(t)),
            ))
        }),
{
    lemma_applied_splits(head, args);
    lemma_closed_is_no_word(applied(head, args));
    lemma_heads_differ();
}

proof fn lemma_lists_unfold(head: Seq<char>, args: Seq<char>, levels: nat)
    requires
        is_head(head),
        levels > 0,
    ensures
        ({
            let below = (levels - 1) as nat;
            let s = applied(head, args);
            let r = column_type::type_named(s, levels);
            let parts = column_type::split_args(args);
            let all = column_type::elements_named(parts, below);
            &&& head == "Tuple"@ ==> (all matches Some(ts) ==> r == Some(Type::Tuple(ts)))
            &&& head == "Variant"@ ==> (all matches Some(types) ==> r == Some(
                Type::Variant { name: s, types },
            ))
            &&& head == "Map"@ && parts.len() == 2 ==> match (
                column_type::type_named(parts[0], below),
                column_type::type_named(parts[1], below),
            ) {
                (Some(k), Some(v)) => r == Some(Type::Mapping(Box::new(k), Box::new(v))),
                _ => true,
            }
            &&& head == "SimpleAggregateFunction"@ && parts.len() == 2 ==> (
            column_type::type_named(parts[1], below) matches Some(t) ==> r == Some(
                Type::SimpleAggregateFunction(Box::new(t)),
            ))
        }),
{
    lemma_applied_splits(head, args);
    lemma_closed_is_no_word(applied(head, args));
    lemma_heads_differ();
}

proof fn lemma_ticks_read_back(precision: u8, timezone: Option<Seq<char>>, levels: nat)
    requires
        levels > 0,
        timezone matches Some(tz) ==> is_zone(tz),
    ensures
        ({
            let t = Type::DateTime64 { precision, timezone };
            column_type::type_named(name_of(t), levels) == Some(t)
        }),
{
    let digits = text::decimal(precision as nat);
    lemma_heads();
    lemma_numbers(precision as nat, 255, 0);
    match timezone {
        None => {
            let parts = seq![digits];
            assert(listed(parts) == digits);
            lemma_lists_split(parts);
            assert(spaced(parts)[0] == digits);
            lemma_unfolds("DateTime64"@, digits, levels);
        },
        Some(tz) => {
            let parts = seq![digits, in_quotes(tz)];
            lemma_quotes_settle(tz, 0);
            lemma_lists_split(parts);
            assert(spaced(parts)[0] == digits);
            assert(spaced(parts)[1] == seq![' '] + in_quotes(tz));
            lemma_space_is_trimmed(in_quotes(tz));
            assert(in_quotes(tz).subrange(1, in_quotes(tz).len() - 1) =~= tz);
            lemma_unfolds("DateTime64"@, listed(parts), levels);
        },
    }
}

/// Each type name stands for the type of that name: the name by which a server announces a type reads
/// back as that type, with its arguments and everything that is nested in it.
pub proof fn type_names_read_back(t: Type, levels: nat)
    requires
        has_name(t),
        roundtrip::levels_of(t) <= levels,
    ensures
        column_type::type_named(name_of(t), levels) == Some(t),
    decreases t,
{
    let below = (levels - 1) as nat;
    lemma_heads();
    match t {
        Type::Plain(p) => {
            lemma_plain_reads_back(p, levels);
        },
        Type::DateTime64 { precision, timezone } => {
            lemma_ticks_read_back(precision, timezone, levels);
        },
        Type::Json(name) => {
            lemma_lone_words();
            text::lemma_trimmed_already(name);
        },
        Type::Dynamic(name) => {
            lemma_lone_words();
            lemma_heads_differ();
            text::lemma_trimmed_already(name);
        },
        Type::Variant { name, types } => {
            lemma_names(types, 0);
            lemma_lists_split(names_of(types));
            lemma_elements_read_back(types, types.len() as int, below);
            assert(spaced(names_of(types)).take(types.len() as int) =~= spaced(names_of(types)));
            assert(types.take(types.len() as int) =~= types);
            lemma_lists_unfold("Variant"@, listed(names_of(types)), levels);
        },
        Type::Nullable(inner) => {
            type_names_read_back(*inner, below);
            lemma_unfolds("Nullable"@, name_of(*inner), levels);
        },
        Type::Array(inner) => {
            type_names_read_back(*inner, below);
            lemma_unfolds("Array"@, name_of(*inner), levels);
        },
        Type::Tuple(types) => {
            lemma_names(types, 0);
            lemma_lists_split(names_of(types));
            lemma_elements_read_back(types, types.len() as int, below);
            assert(spaced(names_of(types)).take(types.len() as int) =~= spaced(names_of(types)));
            assert(types.take(types.len() as int) =~= types);
            lemma_lists_unfold("Tuple"@, listed(names_of(types)), levels);
        },
        Type::Mapping(k, v) => {
            let parts = seq![name_of(*k), name_of(*v)];
            lemma_name(*k, 0);
            lemma_name(*v, 0);
            lemma_lists_split(parts);
            assert(spaced(parts)[0] == name_of(*k));
            assert(spaced(parts)[1] == seq![' '] + name_of(*v));
            lemma_named_and_trimmed(name_of(*v), below);
            type_names_read_back(*k, below);
            type_names_read_back(*v, below);
            lemma_lists_unfold("Map"@, listed(parts), levels);
        },
        Type::LowCardinality(inner) => {
            type_names_read_back(*inner, below);
            lemma_unfolds("LowCardinality"@, name_of(*inner), levels);
        },
        Type::SimpleAggregateFunction(inner) => {
            let parts = seq!["any"@, name_of(*inner)];
            reveal_strlit("any");
            lemma_quiet_settles("any"@, 0);
            lemma_name(*inner, 0);
            lemma_lists_split(parts);
            assert(spaced(parts)[1] == seq![' '] + name_of(*inner));
            lemma_named_and_trimmed(name_of(*inner), below);
            type_names_read_back(*inner, below);
            lemma_lists_unfold("SimpleAggregateFunction"@, listed(parts), levels);
        },
    }
}

proof fn lemma_elements_read_back(types: Seq<Type>, k: int, levels: nat)
    requires
        have_names(types),
        roundtrip::most_levels(types) <= levels,
        0 <= k <= types.len(),
    ensures
        column_type::elements_named(spaced(names_of(types)).take(k), levels) == Some(
            types.take(k),
        ),
    decreases types, k,
{
    let parts = spaced(names_of(types));
    lemma_names(types, 0);
    if k == 0 {
        assert(parts.take(k) =~= Seq::empty());
        assert(types.take(k) =~= Seq::empty());
    } else {
        lemma_elements_read_back(types, k - 1, levels);
        lemma_member(types, k - 1);
        let name = name_of(types[k - 1]);
        assert(has_edges(names_of(types)[k - 1]));
        type_names_read_back(types[k - 1], levels);
        lemma_named_and_trimmed(name, levels);
        assert(parts.take(k).drop_last() =~= parts.take(k - 1));
        assert(parts.take(k).last() == parts[k - 1]);
        assert(parts[k - 1] == if k == 1 {
            name
        } else {
            seq![' '] + name
        });
        assert(column_type::element_named(parts[k - 1], levels) == Some(types[k - 1]));
        assert(types.take(k) =~= types.take(k - 1).push(types[k - 1]));
    }
}

proof fn lemma_member(types: Seq<Type>, i: int)
    requires
        have_names(types),
        0 <= i < types.len(),
    ensures
        has_name(types[i]),
        roundtrip::levels_of(types[i]) <= roundtrip::most_levels(types),
    decreases types.len(),
{
    if i < types.len() - 1 {
        lemma_member(types.drop_last(), i);
    }
}

proof fn lemma_lone_words()
    ensures
        column_type::named_type("JSON"@) is None,
        column_type::named_type("Dynamic"@) is None,
        column_type::head_and_args("JSON"@) is None,
        column_type::head_and_args("Dynamic"@) is None,
{
    lemma_heads();
    lemma_no_bracket("JSON"@);
    lemma_no_bracket("Dynamic"@);
    lemma_word_lengths();
    reveal_strlit("JSON");
    reveal_strlit("Dynamic");
}

proof fn lemma_no_bracket(s: Seq<char>)
    requires
        all_quiet(s),
    ensures
        column_type::head_and_args(s) is None,
{
    text::lemma_first_index(s, seq!['('], 0);
    if let Some(i) = text::first_index(s, seq!['('], 0) {
        assert(s.subrange(i, i + 1)[0] == seq!['('][0]);
        assert(is_quiet(s[i]));
    }
}

#[verifier::rlimit(40)]
proof fn lemma_plain_reads_back(p: ColumnType, levels: nat)
    requires
        is_plain(p),
        levels > 0,
    ensures
        column_type::type_named(plain_name(p), levels) == Some(Type::Plain(p)),
{
    let s = plain_name(p);
    lemma_plain_name(p, 0);
    lemma_heads();
    lemma_heads_differ();
    text::lemma_trimmed_already(s);
    match p {
        ColumnType::Decimal32 { precision, scale }
        | ColumnType::Decimal64 { precision, scale }
        | ColumnType::Decimal128 { precision, scale }
        | ColumnType::Decimal256 { precision, scale } => {
            lemma_decimal_args(precision, scale);
            lemma_applied_splits(
                "Decimal"@,
                listed(seq![text::decimal(precision as nat), text::decimal(scale as nat)]),
            );
            lemma_closed_is_no_word(s);
        },
        ColumnType::FixedString(width) => {
            lemma_numbers(width as nat, usize::MAX as nat, 0);
            lemma_applied_splits("FixedString"@, text::decimal(width as nat));
            lemma_closed_is_no_word(s);
        },
        ColumnType::Time64 { precision } => {
            lemma_numbers(precision as nat, 255, 0);
            lemma_applied_splits("Time64"@, text::decimal(precision as nat));
            lemma_closed_is_no_word(s);
        },
        ColumnType::Enum8 => {
            lemma_applied_splits("Enum8"@, Seq::empty());
            lemma_closed_is_no_word(s);
        },
        ColumnType::Enum16 => {
            lemma_applied_splits("Enum16"@, Seq::empty());
            lemma_closed_is_no_word(s);
        },
        _ => {
            lemma_words_read_back(p);
        },
    }
}

proof fn lemma_decimal_args(precision: u8, scale: u8)
    ensures
        ({
            let parts = seq![text::decimal(precision as nat), text::decimal(scale as nat)];
            let split = column_type::split_args(listed(parts));
            &&& split.len() == 2
            &&& column_type::number_arg(split[0], 255) == Some(precision as nat)
            &&& column_type::number_arg(split[1], 255) == Some(scale as nat)
        }),
{
    let parts = seq![text::decimal(precision as nat), text::decimal(scale as nat)];
    lemma_numbers(precision as nat, 255, 0);
    lemma_numbers(scale as nat, 255, 0);
    lemma_lists_split(parts);
    assert(spaced(parts)[0] == parts[0]);
    assert(spaced(parts)[1] == seq![' '] + parts[1]);
}

/// No two types share a name.
pub proof fn type_names_are_distinct(a: Type, b: Type)
    requires
        has_name(a),
        has_name(b),
        name_of(a) == name_of(b),
    ensures
        a == b,
{
    let levels = roundtrip::larger(roundtrip::levels_of(a), roundtrip::levels_of(b));
    type_names_read_back(a, levels);
    type_names_read_back(b, levels);
}

/// A word names the type of that name, and `Bool` names the unsigned numbers of one byte; no other
/// word without arguments names a type that stands for itself.
pub proof fn words_name_their_types(s: Seq<char>, levels: nat)
    requires
        levels > 0,
    ensures
        column_type::named_type(s) matches Some(p) ==> is_plain(p) && (s == plain_name(p) || s
            == "Bool"@ && p == ColumnType::UInt8),
        column_type::type_named("Bool"@, levels) == Some(Type::Plain(ColumnType::UInt8)),
{
    reveal_strlit("Bool");
    text::lemma_trimmed_already("Bool"@);
}

/// A name with arguments has one of the heads that take arguments; no other names a type.
pub proof fn other_heads_name_nothing(head: Seq<char>, args: Seq<char>, levels: nat)
    requires
        all_quiet(head),
        head.len() > 0,
        !text::is_white(head[0]),
        !text::is_white(head.last()),
        column_type::type_named(applied(head, args), levels) is Some,
    ensures
        takes_arguments().contains(head),
{
    lemma_applied_splits(head, args);
    lemma_closed_is_no_word(applied(head, args));
    let heads = takes_arguments();
    assert(heads[0] == "DateTime64"@);
    assert(heads[1] == "Nullable"@);
    assert(heads[2] == "Array"@);
    assert(heads[3] == "LowCardinality"@);
    assert(heads[4] == "Tuple"@);
    assert(heads[5] == "Variant"@);
    assert(heads[6] == "JSON"@);
    assert(heads[7] == "Dynamic"@);
    assert(heads[8] == "Map"@);
    assert(heads[9] == "SimpleAggregateFunction"@);
    assert(heads[10] == "FixedString"@);
    assert(heads[11] == "DateTime"@);
    assert(heads[12] == "Time64"@);
    assert(heads[13] == "Enum8"@);
    assert(heads[14] == "Enum16"@);
    assert(heads[15] == "Decimal32"@);
    assert(heads[16] == "Decimal64"@);
    assert(heads[17] == "Decimal128"@);
    assert(heads[18] == "Decimal256"@);
    assert(heads[19] == "Decimal"@);
}

/// The heads of the type names that take arguments.
pub open spec fn takes_arguments() -> Seq<Seq<char>> {
    seq![
        "DateTime64"@,
        "Nullable"@,
        "Array"@,
        "LowCardinality"@,
        "Tuple"@,
        "Variant"@,
        "JSON"@,
        "Dynamic"@,
        "Map"@,
        "SimpleAggregateFunction"@,
        "FixedString"@,
        "DateTime"@,
        "Time64"@,
        "Enum8"@,
        "Enum16"@,
        "Decimal32"@,
        "Decimal64"@,
        "Decimal128"@,
        "Decimal256"@,
        "Decimal"@,
    ]
}

/// A decimal type is backed by the narrowest integer that holds its digits, and there is none with
/// more than 76 digits, with none, or with more digits behind the point than in all.
pub proof fn decimals_have_the_integer_of_their_digits(precision: u8, scale: u8, levels: nat)
    requires
        levels > 0,
    ensures
        column_type::type_named(decimal_name(precision, scale), levels) == if scale > precision
            || precision == 0 || precision > 76 {
            None
        } else if precision >= 39 {
            Some(Type::Plain(ColumnType::Decimal256 { precision, scale }))
        } else if precision >= 19 {
            Some(Type::Plain(ColumnType::Decimal128 { precision, scale }))
        } else if precision >= 10 {
            Some(Type::Plain(ColumnType::Decimal64 { precision, scale }))
        } else {
            Some(Type::Plain(ColumnType::Decimal32 { precision, scale }))
        },
{
    let args = listed(seq![text::decimal(precision as nat), text::decimal(scale as nat)]);
    lemma_heads();
    lemma_heads_differ();
    lemma_decimal_args(precision, scale);
    lemma_applied_splits("Decimal"@, args);
    lemma_closed_is_no_word(applied("Decimal"@, args));
}

/// A decimal type that is named by its integer has as many digits as always fit in that integer.
#[verifier::rlimit(40)]
pub proof fn sized_decimals_have_all_digits(scale: u8, levels: nat)
    requires
        levels > 0,
    ensures
        column_type::type_named(applied("Decimal32"@, text::decimal(scale as nat)), levels)
            == if scale <= 9 {
            Some(Type::Plain(ColumnType::Decimal32 { precision: 9, scale }))
        } else {
            None
        },
        column_type::type_named(applied("Decimal64"@, text::decimal(scale as nat)), levels)
            == if scale <= 18 {
            Some(Type::Plain(ColumnType::Decimal64 { precision: 18, scale }))
        } else {
            None
        },
        column_type::type_named(applied("Decimal128"@, text::decimal(scale as nat)), levels)
            == if scale <= 38 {
            Some(Type::Plain(ColumnType::Decimal128 { precision: 38, scale }))
        } else {
            None
        },
        column_type::type_named(applied("Decimal256"@, text::decimal(scale as nat)), levels)
            == if scale <= 76 {
            Some(Type::Plain(ColumnType::Decimal256 { precision: 76, scale }))
        } else {
            None
        },
{
    let digits = text::decimal(scale as nat);
    lemma_heads();
    lemma_heads_differ();
    lemma_numbers(scale as nat, 255, 0);
    lemma_applied_splits("Decimal32"@, digits);
    lemma_applied_splits("Decimal64"@, digits);
    lemma_applied_splits("Decimal128"@, digits);
    lemma_applied_splits("Decimal256"@, digits);
    lemma_closed_is_no_word(applied("Decimal32"@, digits));
    lemma_closed_is_no_word(applied("Decimal64"@, digits));
    lemma_closed_is_no_word(applied("Decimal128"@, digits));
    lemma_closed_is_no_word(applied("Decimal256"@, digits));
}

/// Whatever values an enum lists, and whatever a document type or a dynamic type is told, the type is
/// the one that the head names; one that keeps its name keeps all of it.
pub proof fn listed_values_do_not_matter(args: Seq<char>, levels: nat)
    requires
        levels > 1,
    ensures
        column_type::type_named(applied("Enum8"@, args), levels) == Some(
            Type::Plain(ColumnType::Enum8),
        ),
        column_type::type_named(applied("Enum16"@, args), levels) == Some(
            Type::Plain(ColumnType::Enum16),
        ),
        column_type::type_named(applied("JSON"@, args), levels) == Some(
            Type::Json(applied("JSON"@, args)),
        ),
        column_type::type_named(applied("Dynamic"@, args), levels) == Some(
            Type::Dynamic(applied("Dynamic"@, args)),
        ),
{
    lemma_heads();
    lemma_heads_differ();
    lemma_applied_splits("Enum8"@, args);
    lemma_applied_splits("Enum16"@, args);
    lemma_applied_splits("JSON"@, args);
    lemma_applied_splits("Dynamic"@, args);
    lemma_closed_is_no_word(applied("Enum8"@, args));
    lemma_closed_is_no_word(applied("Enum16"@, args));
    lemma_closed_is_no_word(applied("JSON"@, args));
    lemma_closed_is_no_word(applied("Dynamic"@, args));
}

/// A time zone does not change what a column of seconds holds.
pub proof fn zones_keep_seconds(zone: Seq<char>, levels: nat)
    requires
        levels > 0,
    ensures
        column_type::type_named(applied("DateTime"@, in_quotes(zone)), levels) == Some(
            Type::Plain(ColumnType::DateTime),
        ),
{
    lemma_heads();
    lemma_heads_differ();
    lemma_space_is_trimmed(in_quotes(zone));
    lemma_applied_splits("DateTime"@, in_quotes(zone));
    lemma_closed_is_no_word(applied("DateTime"@, in_quotes(zone)));
}

/// A column that aggregates holds values of the type that it aggregates, whatever the function.
pub proof fn aggregates_hold_their_type(function: Seq<char>, t: Type, levels: nat)
    requires
        all_quiet(function),
        has_name(t),
        1 + roundtrip::levels_of(t) <= levels,
    ensures
        column_type::type_named(
            applied("SimpleAggregateFunction"@, listed(seq![function, name_of(t)])),
            levels,
        ) == Some(Type::SimpleAggregateFunction(Box::new(t))),
{
    let parts = seq![function, name_of(t)];
    lemma_heads();
    lemma_quiet_settles(function, 0);
    lemma_name(t, 0);
    lemma_lists_split(parts);
    assert(spaced(parts)[1] == seq![' '] + name_of(t));
    lemma_named_and_trimmed(name_of(t), (levels - 1) as nat);
    type_names_read_back(t, (levels - 1) as nat);
    lemma_lists_unfold("SimpleAggregateFunction"@, listed(parts), levels);
}

/// White space around a type name means nothing.
pub proof fn white_space_around_names_is_ignored(t: Type, levels: nat)
    requires
        has_name(t),
        roundtrip::levels_of(t) <= levels,
    ensures
        column_type::type_named(seq![' '] + name_of(t), levels) == Some(t),
{
    lemma_name(t, 0);
    lemma_named_and_trimmed(name_of(t), levels);
    type_names_read_back(t, levels);
}

/// A text of letters and digits alone.
spec fn all_letters(s: Seq<char>) -> bool {
    forall|i: int| 0 <= i < s.len() ==> #[trigger] s[i] != ' ' && s[i] != '`'
}

proof fn lemma_words_are_letters(s: Seq<char>)
    requires
        column_type::named_type(s) is Some,
    ensures
        all_letters(s),
{
    if s == "UInt8"@ {
        reveal_strlit("UInt8");
    } else if s == "Bool"@ {
        reveal_strlit("Bool");
    } else if s == "UInt16"@ {
        reveal_strlit("UInt16");
    } else if s == "UInt32"@ {
        reveal_strlit("UInt32");
    } else if s == "UInt64"@ {
        reveal_strlit("UInt64");
    } else if s == "UInt128"@ {
        reveal_strlit("UInt128");
    } else if s == "UInt256"@ {
        reveal_strlit("UInt256");
    } else if s == "Int8"@ {
        reveal_strlit("Int8");
    } else if s == "Int16"@ {
        reveal_strlit("Int16");
    } else if s == "Int32"@ {
        reveal_strlit("Int32");
    } else if s == "Int64"@ {
        reveal_strlit("Int64");
    } else if s == "Int128"@ {
        reveal_strlit("Int128");
    } else if s == "Int256"@ {
        reveal_strlit("Int256");
    } else if s == "Float32"@ {
        reveal_strlit("Float32");
    } else if s == "Float64"@ {
        reveal_strlit("Float64");
    } else if s == "String"@ {
        reveal_strlit("String");
    } else if s == "Date"@ {
        reveal_strlit("Date");
    } else if s == "Date32"@ {
        reveal_strlit("Date32");
    } else if s == "DateTime"@ {
        reveal_strlit("DateTime");
    } else if s == "UUID"@ {
        reveal_strlit("UUID");
    } else if s == "IPv4"@ {
        reveal_strlit("IPv4");
    } else if s == "IPv6"@ {
        reveal_strlit("IPv6");
    } else if s == "BFloat16"@ {
        reveal_strlit("BFloat16");
    } else if s == "Time"@ {
        reveal_strlit("Time");
    } else if s == "Point"@ {
        reveal_strlit("Point");
    } else if s == "Ring"@ {
        reveal_strlit("Ring");
    } else if s == "LineString"@ {
        reveal_strlit("LineString");
    } else if s == "MultiLineString"@ {
        reveal_strlit("MultiLineString");
    } else if s == "Polygon"@ {
        reveal_strlit("Polygon");
    } else if s == "MultiPolygon"@ {
        reveal_strlit("MultiPolygon");
    }
}

proof fn lemma_heads_are_letters(head: Seq<char>)
    requires
        takes_arguments().contains(head),
    ensures
        all_letters(head),
{
    if head == "DateTime64"@ {
        reveal_strlit("DateTime64");
    } else if head == "Nullable"@ {
        reveal_strlit("Nullable");
    } else if head == "Array"@ {
        reveal_strlit("Array");
    } else if head == "LowCardinality"@ {
        reveal_strlit("LowCardinality");
    } else if head == "Tuple"@ {
        reveal_strlit("Tuple");
    } else if head == "Variant"@ {
        reveal_strlit("Variant");
    } else if head == "JSON"@ {
        reveal_strlit("JSON");
    } else if head == "Dynamic"@ {
        reveal_strlit("Dynamic");
    } else if head == "Map"@ {
        reveal_strlit("Map");
    } else if head == "SimpleAggregateFunction"@ {
        reveal_strlit("SimpleAggregateFunction");
    } else if head == "FixedString"@ {
        reveal_strlit("FixedString");
    } else if head == "DateTime"@ {
        reveal_strlit("DateTime");
    } else if head == "Time64"@ {
        reveal_strlit("Time64");
    } else if head == "Enum8"@ {
        reveal_strlit("Enum8");
    } else if head == "Enum16"@ {
        reveal_strlit("Enum16");
    } else if head == "Decimal32"@ {
        reveal_strlit("Decimal32");
    } else if head == "Decimal64"@ {
        reveal_strlit("Decimal64");
    } else if head == "Decimal128"@ {
        reveal_strlit("Decimal128");
    } else if head == "Decimal256"@ {
        reveal_strlit("Decimal256");
    } else if head == "Decimal"@ {
        reveal_strlit("Decimal");
    }
}

proof fn lemma_others_name_nothing(s: Seq<char>, levels: nat)
    requires
        has_edges(s),
        column_type::type_named(s, levels) is Some,
    ensures
        match column_type::head_and_args(s) {
            Some((head, _)) => all_letters(s) || all_letters(head),
            None => all_letters(s),
        },
{
    text::lemma_trimmed_already(s);
    if column_type::named_type(s) is Some {
        lemma_words_are_letters(s);
    } else if let Some((head, args)) = column_type::head_and_args(s) {
        let heads = takes_arguments();
        assert(heads[0] == "DateTime64"@);
        assert(heads[1] == "Nullable"@);
        assert(heads[2] == "Array"@);
        assert(heads[3] == "LowCardinality"@);
        assert(heads[4] == "Tuple"@);
        assert(heads[5] == "Variant"@);
        assert(heads[6] == "JSON"@);
        assert(heads[7] == "Dynamic"@);
        assert(heads[8] == "Map"@);
        assert(heads[9] == "SimpleAggregateFunction"@);
        assert(heads[10] == "FixedString"@);
        assert(heads[11] == "DateTime"@);
        assert(heads[12] == "Time64"@);
        assert(heads[13] == "Enum8"@);
        assert(heads[14] == "Enum16"@);
        assert(heads[15] == "Decimal32"@);
        assert(heads[16] == "Decimal64"@);
        assert(heads[17] == "Decimal128"@);
        assert(heads[18] == "Decimal256"@);
        assert(heads[19] == "Decimal"@);
        lemma_heads_are_letters(head);
    } else {
        let heads = takes_arguments();
        assert(heads[6] == "JSON"@);
        assert(heads[7] == "Dynamic"@);
        lemma_heads_are_letters(s);
    }
}

/// An element of a tuple may have a name before its type; the name does not matter.
pub proof fn element_names_do_not_matter(name: Seq<char>, t: Type, levels: nat)
    requires
        has_name(t),
        roundtrip::levels_of(t) <= levels,
        name.len() > 0,
        all_quiet(name),
        forall|i: int| 0 <= i < name.len() ==> !text::is_white(#[trigger] name[i]),
    ensures
        column_type::element_named(name + seq![' '] + name_of(t), levels) == Some(t),
{
    let s = name + seq![' '] + name_of(t);
    let k = name.len() as int;
    lemma_name(t, 0);
    type_names_read_back(t, levels);
    assert(s[0] == name[0]);
    assert(s.last() == name_of(t).last());
    assert(s[k] == ' ');
    text::lemma_trimmed_already(s);
    if column_type::type_named(s, levels) is Some {
        lemma_others_name_nothing(s, levels);
        if let Some((head, _)) = column_type::head_and_args(s) {
            text::lemma_first_index(s, seq!['('], 0);
            let i = text::first_index(s, seq!['('], 0)->0;
            assert(s.subrange(i, i + 1)[0] == seq!['('][0]);
            if i < k {
                assert(s[i] == name[i]);
                assert(is_quiet(name[i]));
            }
            assert(head[k] == ' ');
        }
    }
    assert(is_quiet(name[0]));
    assert(s.subrange(k, k + 1) =~= seq![' ']);
    assert forall|j: int| 0 <= j < k implies !text::occurs_at(s, seq![' '], j) by {
        assert(s.subrange(j, j + 1)[0] == name[j]);
        assert(seq![' '][0] == ' ');
        assert(!text::is_white(name[j]));
    }
    text::lemma_first_index_is(s, seq![' '], 0, k);
    assert(s.skip(k + 1) =~= name_of(t));
}

/// A name in backticks may hold anything but a backtick.
pub proof fn quoted_element_names_do_not_matter(name: Seq<char>, t: Type, levels: nat)
    requires
        has_name(t),
        roundtrip::levels_of(t) <= levels,
        forall|i: int| 0 <= i < name.len() ==> #[trigger] name[i] != '`',
    ensures
        column_type::element_named(seq!['`'] + name + seq!['`', ' '] + name_of(t), levels) == Some(
            t,
        ),
{
    let s = seq!['`'] + name + seq!['`', ' '] + name_of(t);
    let k = name.len() as int + 1;
    lemma_name(t, 0);
    type_names_read_back(t, levels);
    lemma_named_and_trimmed(name_of(t), levels);
    assert(s[0] == '`');
    assert(s[k] == '`');
    assert(s.last() == name_of(t).last());
    text::lemma_trimmed_already(s);
    if column_type::type_named(s, levels) is Some {
        lemma_others_name_nothing(s, levels);
        if let Some((head, _)) = column_type::head_and_args(s) {
            text::lemma_first_index(s, seq!['('], 0);
            let i = text::first_index(s, seq!['('], 0)->0;
            assert(s.subrange(i, i + 1)[0] == seq!['('][0]);
            assert(head[0] == '`');
        }
    }
    assert(s.subrange(k, k + 1) =~= seq!['`']);
    assert forall|j: int| 1 <= j < k implies !text::occurs_at(s, seq!['`'], j) by {
        assert(s.subrange(j, j + 1)[0] == name[j - 1]);
        assert(seq!['`'][0] == '`');
    }
    text::lemma_first_index_is(s, seq!['`'], 1, k);
    assert(s.skip(k + 1) =~= seq![' '] + name_of(t));
}

/// A type has the structure that it is called by.
pub proof fn types_have_the_structure_of_their_name(
    t: ColumnType,
    k: ColumnType,
    name: String,
    precision: u8,
    zone: String,
)
    ensures
        is_plain(t) ==> t.model() == Type::Plain(t),
        ColumnType::Nullable(Box::new(t)).model() == Type::Nullable(Box::new(t.model())),
        ColumnType::Array(Box::new(t)).model() == Type::Array(Box::new(t.model())),
        ColumnType::LowCardinality(Box::new(t)).model() == Type::LowCardinality(Box::new(t.model())),
        ColumnType::SimpleAggregateFunction(Box::new(t)).model() == Type::SimpleAggregateFunction(
            Box::new(t.model()),
        ),
        ColumnType::Mapping(Box::new(k), Box::new(t)).model() == Type::Mapping(
            Box::new(k.model()),
            Box::new(t.model()),
        ),
        ColumnType::Json(name).model() == Type::Json(name@),
        ColumnType::Dynamic(name).model() == Type::Dynamic(name@),
        (ColumnType::DateTime64 { precision, timezone: Some(zone) }).model() == (Type::DateTime64 {
            precision,
            timezone: Some(zone@),
        }),
        (ColumnType::DateTime64 { precision, timezone: None }).model() == (Type::DateTime64 {
            precision,
            timezone: None,
        }),
{
}

proof fn lemma_escapes_stay_inside(s: Seq<char>, quote: char, depth: int)
    requires
        quote == '\'' || quote == '`',
    ensures
        ({
            let inside = ArgScan { quote: Some(quote), ..at(depth) };
            let e = sql::escaped(s, quote);
            &&& read(inside, e) == inside
            &&& forall|i: int|
                0 <= i <= e.len() ==> (#[trigger] read(inside, e.take(i))).quote is Some
        }),
    decreases s.len(),
{
    let inside = ArgScan { quote: Some(quote), ..at(depth) };
    let e = sql::escaped(s, quote);
    if s.len() > 0 {
        let front = sql::escaped(s.drop_last(), quote);
        lemma_escapes_stay_inside(s.drop_last(), quote, depth);
        let n = front.len() as int;
        let c = s.last();
        if c == quote || c == '\\' {
            assert(e =~= front + seq!['\\'] + seq![c]);
            lemma_one(inside, '\\');
            lemma_read_join(inside, front, seq!['\\']);
            let waiting = ArgScan { escaped: true, ..inside };
            lemma_one(waiting, c);
            lemma_read_join(inside, front + seq!['\\'], seq![c]);
            assert(e.take(n + 1) =~= front + seq!['\\']);
        } else {
            assert(e =~= front + seq![c]);
            lemma_one(inside, c);
            lemma_read_join(inside, front, seq![c]);
        }
        assert(e.take(e.len() as int) =~= e);
        assert forall|i: int| 0 <= i <= e.len() implies (#[trigger] read(inside, e.take(i))).quote
            is Some by {
            if i <= n {
                assert(e.take(i) =~= front.take(i));
                assert(read(inside, front.take(i)).quote is Some);
            }
        }
    } else {
        assert(e =~= Seq::empty());
        assert(e.take(0) =~= Seq::empty());
    }
}

proof fn lemma_quoted_settles(s: Seq<char>, quote: char, depth: int)
    requires
        quote == '\'' || quote == '`',
    ensures
        settles(sql::quoted(s, quote), depth),
{
    let inside = ArgScan { quote: Some(quote), ..at(depth) };
    let e = sql::escaped(s, quote);
    let q = seq![quote];
    lemma_escapes_stay_inside(s, quote, depth);
    lemma_one(at(depth), quote);
    lemma_one(inside, quote);
    lemma_read_join(at(depth), q, e);
    lemma_read_join(at(depth), q + e, q);
    assert forall|i: int| 0 <= i < e.len() && #[trigger] e[i] == ',' implies read(
        inside,
        e.take(i),
    ).quote is Some by {}
    lemma_commas_join(at(depth), q, e, depth + 1);
    lemma_commas_join(at(depth), q + e, q, depth + 1);
}

/// A text in quotes is one argument, whatever it holds: neither commas nor brackets nor escaped quotes
/// end it.
pub proof fn quoted_texts_are_one_argument(s: Seq<char>, quote: char, t: Type)
    requires
        quote == '\'' || quote == '`',
        has_name(t),
    ensures
        column_type::split_args(listed(seq![sql::quoted(s, quote), name_of(t)])) == seq![
            sql::quoted(s, quote),
            seq![' '] + name_of(t),
        ],
        column_type::split_args(listed(seq![name_of(t), sql::quoted(s, quote)])) == seq![
            name_of(t),
            seq![' '] + sql::quoted(s, quote),
        ],
{
    lemma_quoted_settles(s, quote, 0);
    lemma_name(t, 0);
    let a = seq![sql::quoted(s, quote), name_of(t)];
    let b = seq![name_of(t), sql::quoted(s, quote)];
    lemma_lists_split(a);
    lemma_lists_split(b);
    assert(spaced(a) =~= seq![sql::quoted(s, quote), seq![' '] + name_of(t)]);
    assert(spaced(b) =~= seq![name_of(t), seq![' '] + sql::quoted(s, quote)]);
}

/// Precisions take one byte: a larger one names no type.
pub proof fn large_precisions_name_nothing(precision: nat, levels: nat)
    requires
        precision > 255,
    ensures
        column_type::type_named(applied("Time64"@, text::decimal(precision)), levels) is None,
        column_type::type_named(applied("DateTime64"@, text::decimal(precision)), levels) is None,
{
    let digits = text::decimal(precision);
    let parts = seq![digits];
    lemma_heads();
    lemma_heads_differ();
    lemma_numbers(precision, precision, 0);
    assert(column_type::number_arg(digits, 255) is None) by {
        text::decimal_reads_back(precision);
        assert(text::is_digit(digits[0]));
        lemma_space_is_trimmed(digits);
    }
    assert(listed(parts) == digits);
    lemma_lists_split(parts);
    assert(spaced(parts)[0] == digits);
    lemma_applied_splits("Time64"@, digits);
    lemma_applied_splits("DateTime64"@, digits);
    lemma_closed_is_no_word(applied("Time64"@, digits));
    lemma_closed_is_no_word(applied("DateTime64"@, digits));
}

/// A map takes the types of its keys and of its values, no more and no less.
pub proof fn maps_take_two_types(types: Seq<Type>, levels: nat)
    requires
        have_names(types),
        types.len() > 0,
        types.len() != 2,
    ensures
        column_type::type_named(applied("Map"@, listed(names_of(types))), levels) is None,
{
    let args = listed(names_of(types));
    lemma_heads();
    lemma_heads_differ();
    lemma_names(types, 0);
    lemma_lists_split(names_of(types));
    lemma_applied_splits("Map"@, args);
    lemma_closed_is_no_word(applied("Map"@, args));
}

/// A time zone has to stand in quotes.
pub proof fn zones_need_quotes(args: Seq<char>, levels: nat)
    requires
        column_type::type_named(applied("DateTime"@, args), levels) is Some,
    ensures
        text::trimmed(args).len() >= 2,
        text::trimmed(args)[0] == '\'',
        text::trimmed(args).last() == '\'',
{
    lemma_heads();
    lemma_heads_differ();
    lemma_applied_splits("DateTime"@, args);
    lemma_closed_is_no_word(applied("DateTime"@, args));
}

/// A type that holds one of an unknown name is unknown itself.
pub proof fn unknown_types_stay_unknown_inside_others(args: Seq<char>, levels: nat)
    requires
        levels > 0,
        column_type::type_named(args, (levels - 1) as nat) is None,
    ensures
        column_type::type_named(applied("Nullable"@, args), levels) is None,
        column_type::type_named(applied("Array"@, args), levels) is None,
        column_type::type_named(applied("LowCardinality"@, args), levels) is None,
{
    lemma_heads();
    lemma_heads_differ();
    lemma_applied_splits("Nullable"@, args);
    lemma_applied_splits("Array"@, args);
    lemma_applied_splits("LowCardinality"@, args);
    lemma_closed_is_no_word(applied("Nullable"@, args));
    lemma_closed_is_no_word(applied("Array"@, args));
    lemma_closed_is_no_word(applied("LowCardinality"@, args));
}

/// The elements of a tuple all have types, each its own: with one element of no known type there is no
/// tuple.
pub proof fn every_element_has_its_type(parts: Seq<Seq<char>>, levels: nat, i: int)
    requires
        0 <= i < parts.len(),
    ensures
        match column_type::elements_named(parts, levels) {
            Some(types) => types.len() == parts.len() && column_type::element_named(parts[i], levels)
                == Some(types[i]),
            None => exists|j: int|
                0 <= j < parts.len() && column_type::element_named(#[trigger] parts[j], levels) is None,
        },
    decreases parts.len(),
{
    let rest = parts.drop_last();
    let last = parts.len() - 1;
    if rest.len() == 0 {
        assert(column_type::elements_named(rest, levels) == Some(Seq::<Type>::empty()));
        assert(parts[last] == parts.last());
    } else {
        let k = if i < last {
            i
        } else {
            0
        };
        every_element_has_its_type(rest, levels, k);
        assert(rest[k] == parts[k]);
        if column_type::elements_named(rest, levels) is None {
            let j = choose|j: int|
                0 <= j < rest.len() && column_type::element_named(#[trigger] rest[j], levels) is None;
            assert(column_type::element_named(parts[j], levels) is None);
        } else {
            assert(parts[last] == parts.last());
        }
    }
}

} // verus!
