//! What the values of each type are on the wire, and that a column that is announced by its type's
//! name is read as what was written.
use vstd::prelude::*;
use vstd::utf8::*;

use crate::native::column_type::{self, ColumnType, Type};
use crate::native::decode::{self, Column, DecodeError, DecodedColumn, Opaque, ScalarKind, WideKind};
use crate::native::decode_laws as laws;
use crate::native::decode_roundtrip as roundtrip;
use crate::native::type_laws as names;
use crate::native::wire;

verus! {

/// A column of the type can hold the number.
pub open spec fn holds(t: ColumnType, v: int) -> bool {
    decode::scalar_layout(Type::Plain(t)) matches Some((_, width, signed)) && wire::fits(
        v,
        width,
        signed,
    )
}

/// The numbers of a column have the range that its type says: as many bits as its name gives, and a
/// sign where the name does not deny it.
pub proof fn numbers_have_the_range_of_their_type(v: int)
    ensures
        holds(ColumnType::UInt8, v) <==> 0 <= v <= u8::MAX,
        holds(ColumnType::UInt16, v) <==> 0 <= v <= u16::MAX,
        holds(ColumnType::UInt32, v) <==> 0 <= v <= u32::MAX,
        holds(ColumnType::UInt64, v) <==> 0 <= v <= u64::MAX,
        holds(ColumnType::UInt128, v) <==> 0 <= v <= u128::MAX,
        holds(ColumnType::Int8, v) <==> i8::MIN <= v <= i8::MAX,
        holds(ColumnType::Int16, v) <==> i16::MIN <= v <= i16::MAX,
        holds(ColumnType::Int32, v) <==> i32::MIN <= v <= i32::MAX,
        holds(ColumnType::Int64, v) <==> i64::MIN <= v <= i64::MAX,
        holds(ColumnType::Int128, v) <==> i128::MIN <= v <= i128::MAX,
        holds(ColumnType::Enum8, v) <==> 0 <= v <= u8::MAX,
        holds(ColumnType::Enum16, v) <==> 0 <= v <= u16::MAX,
        holds(ColumnType::Float32, v) <==> 0 <= v <= u32::MAX,
        holds(ColumnType::Float64, v) <==> 0 <= v <= u64::MAX,
        holds(ColumnType::Date, v) <==> 0 <= v <= u16::MAX,
        holds(ColumnType::Date32, v) <==> i32::MIN <= v <= i32::MAX,
        holds(ColumnType::DateTime, v) <==> 0 <= v <= u32::MAX,
        holds(ColumnType::IPv4, v) <==> 0 <= v <= u32::MAX,
{
    wire::lemma_pow256_values();
}

/// A decimal number is kept in the signed integer that backs it, and ticks in 64 bits with a sign.
pub proof fn backing_integers_are_signed(precision: u8, scale: u8, zone: Option<Seq<char>>, v: int)
    ensures
        holds(ColumnType::Decimal32 { precision, scale }, v) <==> i32::MIN <= v <= i32::MAX,
        holds(ColumnType::Decimal64 { precision, scale }, v) <==> i64::MIN <= v <= i64::MAX,
        holds(ColumnType::Decimal128 { precision, scale }, v) <==> i128::MIN <= v <= i128::MAX,
        decode::scalar_layout(Type::DateTime64 { precision, timezone: zone }) matches Some(
            (_, width, signed),
        ) && (wire::fits(v, width, signed) <==> i64::MIN <= v <= i64::MAX),
{
    wire::lemma_pow256_values();
}

/// The name of what the numbers of a column stand for.
pub open spec fn kind_name(kind: ScalarKind) -> Seq<char> {
    match kind {
        ScalarKind::UInt8 => "UInt8"@,
        ScalarKind::UInt16 => "UInt16"@,
        ScalarKind::UInt32 => "UInt32"@,
        ScalarKind::UInt64 => "UInt64"@,
        ScalarKind::UInt128 => "UInt128"@,
        ScalarKind::Int8 => "Int8"@,
        ScalarKind::Int16 => "Int16"@,
        ScalarKind::Int32 => "Int32"@,
        ScalarKind::Int64 => "Int64"@,
        ScalarKind::Int128 => "Int128"@,
        ScalarKind::Float32 => "Float32"@,
        ScalarKind::Float64 => "Float64"@,
        ScalarKind::Decimal32 { precision, scale } => names::decimal_name(precision, scale),
        ScalarKind::Decimal64 { precision, scale } => names::decimal_name(precision, scale),
        ScalarKind::Decimal128 { precision, scale } => names::decimal_name(precision, scale),
        ScalarKind::Date => "Date"@,
        ScalarKind::Date32 => "Date32"@,
        ScalarKind::DateTime => "DateTime"@,
        ScalarKind::DateTime64 { precision, timezone } => names::name_of(
            Type::DateTime64 { precision, timezone },
        ),
        ScalarKind::Ipv4 => "IPv4"@,
    }
}

/// The name of what the byte strings of a column stand for.
pub open spec fn wide_name(kind: WideKind) -> Seq<char> {
    match kind {
        WideKind::Int256 => "Int256"@,
        WideKind::UInt256 => "UInt256"@,
        WideKind::Decimal256 { precision, scale } => names::decimal_name(precision, scale),
        WideKind::Uuid => "UUID"@,
        WideKind::Ipv6 => "IPv6"@,
    }
}

/// A column is decoded as values of the type that it was announced with: what the numbers or byte
/// strings stand for goes by the name of the type. An enum is read as the numbers of its values.
pub proof fn values_are_of_the_announced_type(t: Type)
    ensures
        decode::scalar_layout(t) matches Some((kind, _, _)) ==> kind_name(kind) == if t
            == Type::Plain(ColumnType::Enum8) {
            names::name_of(Type::Plain(ColumnType::UInt8))
        } else if t == Type::Plain(ColumnType::Enum16) {
            names::name_of(Type::Plain(ColumnType::UInt16))
        } else {
            names::name_of(t)
        },
        decode::wide_layout(t) matches Some((kind, _)) ==> wide_name(kind) == names::name_of(t),
        decode::opaque_layout(t) matches Some((name, _)) ==> name == names::name_of(t),
{
    if let Type::Plain(ColumnType::Time64 { precision }) = t {
        reveal_strlit("Time64(");
        reveal_strlit("Time64");
        reveal_strlit(")");
        let name = (decode::opaque_layout(t)->0).0;
        assert(name =~= names::name_of(t));
    }
}

/// The types that are read as byte strings of one width take 256 bits for numbers and 128 bits for
/// identifiers and addresses; no other type is read like that.
pub proof fn wide_values_have_the_width_of_their_type(t: Type)
    ensures
        decode::wide_layout(t) matches Some((_, width)) ==> width == if t == Type::Plain(
            ColumnType::Uuid,
        ) || t == Type::Plain(ColumnType::IPv6) {
            16nat
        } else {
            32nat
        },
        decode::wide_layout(t) is Some <==> (t matches Type::Plain(p) && (p is Int256 || p
            is UInt256 || p is Decimal256 || p is Uuid || p is IPv6)),
{
}

/// How the values of a type that is not decoded lie on the wire.
pub open spec fn passed_over(t: ColumnType) -> Option<Opaque> {
    match decode::opaque_layout(Type::Plain(t)) {
        Some((_, layout)) => Some(layout),
        None => None,
    }
}

/// The geometric types are nested in one another: a point is two floating-point numbers, a ring and a
/// line are arrays of points, a polygon and a group of lines are arrays of those, and a group of
/// polygons is an array of polygons.
pub proof fn shapes_are_arrays_of_shapes(float_width: usize)
    requires
        decode::scalar_layout(Type::Plain(ColumnType::Float64)) matches Some((_, width, _))
            && width == float_width,
    ensures
        passed_over(ColumnType::Point) == Some(
            Opaque::Fixed { width: (2 * float_width) as usize, levels: 0 },
        ),
        passed_over(ColumnType::Ring) == Some(
            Opaque::Fixed { width: (2 * float_width) as usize, levels: 1 },
        ),
        passed_over(ColumnType::LineString) == passed_over(ColumnType::Ring),
        passed_over(ColumnType::Polygon) == Some(
            Opaque::Fixed { width: (2 * float_width) as usize, levels: 2 },
        ),
        passed_over(ColumnType::MultiLineString) == passed_over(ColumnType::Polygon),
        passed_over(ColumnType::MultiPolygon) == Some(
            Opaque::Fixed { width: (2 * float_width) as usize, levels: 3 },
        ),
{
}

/// Half-width floating-point numbers take two bytes, times of day four, and with fractions of a
/// second eight; documents are strings.
pub proof fn passed_over_values_have_the_width_of_their_type(precision: u8, name: Seq<char>)
    ensures
        passed_over(ColumnType::BFloat16) == Some(Opaque::Fixed { width: 2, levels: 0 }),
        passed_over(ColumnType::Time) == Some(Opaque::Fixed { width: 4, levels: 0 }),
        passed_over(ColumnType::Time64 { precision }) == Some(
            Opaque::Fixed { width: 8, levels: 0 },
        ),
        decode::opaque_layout(Type::Json(name)) == Some((name, Opaque::Strings)),
{
}

/// Of the types that stand for themselves, strings and those of the geometric kind, half-width
/// floating-point numbers and times of day are not read as numbers or wide values; all others are.
pub proof fn every_plain_type_has_a_layout(p: ColumnType)
    requires
        names::is_plain(p),
    ensures
        ({
            let t = Type::Plain(p);
            &&& decode::opaque_layout(t) is Some <==> (p is BFloat16 || p is Time || p is Time64 || p
                is Point || p is Ring || p is LineString || p is MultiLineString || p is Polygon
                || p is MultiPolygon)
            &&& decode::scalar_layout(t) is None && decode::wide_layout(t) is None
                && decode::opaque_layout(t) is None <==> (p is String || p is FixedString)
        }),
{
}

/// A column that is announced by the name of its type is read as what was written: the values, of that
/// type, and no byte behind them.
pub proof fn announced_columns_are_read_as_written(t: Type, c: Column, n: nat, rest: Seq<u8>)
    requires
        names::has_name(t),
        roundtrip::levels_of(t) <= column_type::MAX_TYPE_LEVELS,
        roundtrip::fully_decoded(t),
        laws::well_formed(c, t, n, 0),
    ensures
        decode::typed_column(roundtrip::wire_of(c) + rest, names::name_of(t), n) == Some(
            Ok::<(Column, nat), DecodeError>((c, roundtrip::wire_of(c).len())),
        ),
{
    reveal(decode::typed_column);
    names::type_names_read_back(t, column_type::MAX_TYPE_LEVELS as nat);
    roundtrip::written_columns_decode_to_themselves(c, t, n, 0, rest);
}

/// Numbers in little-endian bytes of one width.
pub open spec fn written(values: Seq<int>, width: nat) -> Seq<u8> {
    roundtrip::concat(roundtrip::scalar_parts(values, width))
}

/// A column that is announced as `Int64` gives back the signed numbers that were written, and one
/// that is announced as `UInt64` the unsigned ones.
pub proof fn announced_integers_keep_their_sign(values: Seq<int>, rest: Seq<u8>)
    requires
        values.len() * 8 <= usize::MAX,
    ensures
        (forall|i: int| 0 <= i < values.len() ==> i64::MIN <= #[trigger] values[i] <= i64::MAX)
            ==> decode::typed_column(written(values, 8) + rest, "Int64"@, values.len()) == Some(
            Ok::<(Column, nat), DecodeError>(
                (Column::Scalars(ScalarKind::Int64, values), written(values, 8).len()),
            ),
        ),
        (forall|i: int| 0 <= i < values.len() ==> 0 <= #[trigger] values[i] <= u64::MAX)
            ==> decode::typed_column(written(values, 8) + rest, "UInt64"@, values.len()) == Some(
            Ok::<(Column, nat), DecodeError>(
                (Column::Scalars(ScalarKind::UInt64, values), written(values, 8).len()),
            ),
        ),
{
    wire::lemma_pow256_values();
    if forall|i: int| 0 <= i < values.len() ==> i64::MIN <= #[trigger] values[i] <= i64::MAX {
        announced_columns_are_read_as_written(
            Type::Plain(ColumnType::Int64),
            Column::Scalars(ScalarKind::Int64, values),
            values.len(),
            rest,
        );
    }
    if forall|i: int| 0 <= i < values.len() ==> 0 <= #[trigger] values[i] <= u64::MAX {
        announced_columns_are_read_as_written(
            Type::Plain(ColumnType::UInt64),
            Column::Scalars(ScalarKind::UInt64, values),
            values.len(),
            rest,
        );
    }
}

/// A column with a dictionary that lies elsewhere, or with none, is refused.
pub proof fn dictionaries_come_with_their_column(s: Seq<u8>, inner: Type, n: nat, depth: nat)
    requires
        16 <= s.len(),
        n <= usize::MAX,
    ensures
        ({
            let flags = wire::le_nat(s.subrange(8, 16));
            let r = decode::decoded_low_cardinality(s, inner, n, depth);
            &&& (flags / 256) % 2 == 1 ==> r == Err::<(Column, nat), DecodeError>(
                DecodeError::GlobalDictionary,
            )
            &&& (flags / 256) % 2 == 0 && (flags / 512) % 2 == 0 ==> r == Err::<
                (Column, nat),
                DecodeError,
            >(DecodeError::NoDictionary)
        }),
{
}

/// An index into a dictionary takes one, two, four or eight bytes, and index 0 stands for null where
/// the values may be null.
pub proof fn indices_double_in_width(code: nat, inner: Type)
    requires
        code < 3,
    ensures
        decode::index_layout(0).1 == 1,
        decode::index_layout(code + 1).1 == 2 * decode::index_layout(code).1,
        kind_name(decode::index_layout(0).0) == "UInt8"@,
        kind_name(decode::index_layout(1).0) == "UInt16"@,
        kind_name(decode::index_layout(2).0) == "UInt32"@,
        kind_name(decode::index_layout(3).0) == "UInt64"@,
        decode::dictionary_type(Type::Nullable(Box::new(inner))) == (inner, true),
        !(inner is Nullable) ==> decode::dictionary_type(inner) == (inner, false),
{
}

/// From revision 54454 on, a flag stands before the values of each column.
pub proof fn flags_came_with_a_revision(revision: u64)
    ensures
        decode::has_flag(revision) <==> revision >= 54454,
{
}

/// A composite type may hold another, down to 32 of them: deeper ones are refused, whatever they
/// hold.
pub proof fn deep_columns_are_refused(s: Seq<u8>, t: Type, n: nat, depth: nat)
    ensures
        depth > 32 ==> decode::decoded(s, t, n, depth) == Err::<(Column, nat), DecodeError>(
            DecodeError::TooDeep,
        ),
        depth <= 32 && n <= usize::MAX && decode::scalar_layout(t) is Some ==> decode::decoded(
            s,
            t,
            n,
            depth,
        ) != Err::<(Column, nat), DecodeError>(DecodeError::TooDeep),
{
}

/// A decoded column of numbers stands for the numbers that it holds, of the type that it is called
/// by.
pub proof fn decoded_numbers_mean_themselves(
    u8s: Vec<u8>,
    u16s: Vec<u16>,
    u32s: Vec<u32>,
    u64s: Vec<u64>,
    u128s: Vec<u128>,
    i8s: Vec<i8>,
    i16s: Vec<i16>,
    i32s: Vec<i32>,
    i64s: Vec<i64>,
    i128s: Vec<i128>,
)
    ensures
        DecodedColumn::UInt8(u8s).model() == Column::Scalars(
            ScalarKind::UInt8,
            Seq::new(u8s@.len(), |i: int| u8s@[i] as int),
        ),
        DecodedColumn::UInt16(u16s).model() == Column::Scalars(
            ScalarKind::UInt16,
            Seq::new(u16s@.len(), |i: int| u16s@[i] as int),
        ),
        DecodedColumn::UInt32(u32s).model() == Column::Scalars(
            ScalarKind::UInt32,
            Seq::new(u32s@.len(), |i: int| u32s@[i] as int),
        ),
        DecodedColumn::UInt64(u64s).model() == Column::Scalars(
            ScalarKind::UInt64,
            Seq::new(u64s@.len(), |i: int| u64s@[i] as int),
        ),
        DecodedColumn::UInt128(u128s).model() == Column::Scalars(
            ScalarKind::UInt128,
            Seq::new(u128s@.len(), |i: int| u128s@[i] as int),
        ),
        DecodedColumn::Int8(i8s).model() == Column::Scalars(
            ScalarKind::Int8,
            Seq::new(i8s@.len(), |i: int| i8s@[i] as int),
        ),
        DecodedColumn::Int16(i16s).model() == Column::Scalars(
            ScalarKind::Int16,
            Seq::new(i16s@.len(), |i: int| i16s@[i] as int),
        ),
        DecodedColumn::Int32(i32s).model() == Column::Scalars(
            ScalarKind::Int32,
            Seq::new(i32s@.len(), |i: int| i32s@[i] as int),
        ),
        DecodedColumn::Int64(i64s).model() == Column::Scalars(
            ScalarKind::Int64,
            Seq::new(i64s@.len(), |i: int| i64s@[i] as int),
        ),
        DecodedColumn::Int128(i128s).model() == Column::Scalars(
            ScalarKind::Int128,
            Seq::new(i128s@.len(), |i: int| i128s@[i] as int),
        ),
{
    assert(decode::numbers(u8s@) =~= Seq::new(u8s@.len(), |i: int| u8s@[i] as int));
    assert(decode::numbers(u16s@) =~= Seq::new(u16s@.len(), |i: int| u16s@[i] as int));
    assert(decode::numbers(u32s@) =~= Seq::new(u32s@.len(), |i: int| u32s@[i] as int));
    assert(decode::numbers(u64s@) =~= Seq::new(u64s@.len(), |i: int| u64s@[i] as int));
    assert(decode::numbers(u128s@) =~= Seq::new(u128s@.len(), |i: int| u128s@[i] as int));
    assert(decode::numbers(i8s@) =~= Seq::new(i8s@.len(), |i: int| i8s@[i] as int));
    assert(decode::numbers(i16s@) =~= Seq::new(i16s@.len(), |i: int| i16s@[i] as int));
    assert(decode::numbers(i32s@) =~= Seq::new(i32s@.len(), |i: int| i32s@[i] as int));
    assert(decode::numbers(i64s@) =~= Seq::new(i64s@.len(), |i: int| i64s@[i] as int));
    assert(decode::numbers(i128s@) =~= Seq::new(i128s@.len(), |i: int| i128s@[i] as int));
}

/// The same of floating-point numbers, by their bits, of dates, times and addresses.
pub proof fn decoded_times_mean_themselves(
    u16s: Vec<u16>,
    u32s: Vec<u32>,
    u64s: Vec<u64>,
    i32s: Vec<i32>,
    i64s: Vec<i64>,
    precision: u8,
    timezone: Option<String>,
)
    ensures
        ({
            let halves = Seq::new(u16s@.len(), |i: int| u16s@[i] as int);
            let words = Seq::new(u32s@.len(), |i: int| u32s@[i] as int);
            let longs = Seq::new(u64s@.len(), |i: int| u64s@[i] as int);
            let days = Seq::new(i32s@.len(), |i: int| i32s@[i] as int);
            let ticks = Seq::new(i64s@.len(), |i: int| i64s@[i] as int);
            &&& DecodedColumn::Float32(u32s).model() == Column::Scalars(ScalarKind::Float32, words)
            &&& DecodedColumn::Float64(u64s).model() == Column::Scalars(ScalarKind::Float64, longs)
            &&& DecodedColumn::Date(u16s).model() == Column::Scalars(ScalarKind::Date, halves)
            &&& DecodedColumn::Date32(i32s).model() == Column::Scalars(ScalarKind::Date32, days)
            &&& DecodedColumn::DateTime(u32s).model() == Column::Scalars(
                ScalarKind::DateTime,
                words,
            )
            &&& DecodedColumn::Ipv4(u32s).model() == Column::Scalars(ScalarKind::Ipv4, words)
            &&& (DecodedColumn::DateTime64 { precision, timezone, values: i64s }).model()
                == Column::Scalars(
                ScalarKind::DateTime64 {
                    precision,
                    timezone: match timezone {
                        Some(zone) => Some(zone@),
                        None => None,
                    },
                },
                ticks,
            )
        }),
{
    assert(decode::numbers(u16s@) =~= Seq::new(u16s@.len(), |i: int| u16s@[i] as int));
    assert(decode::numbers(u32s@) =~= Seq::new(u32s@.len(), |i: int| u32s@[i] as int));
    assert(decode::numbers(u64s@) =~= Seq::new(u64s@.len(), |i: int| u64s@[i] as int));
    assert(decode::numbers(i32s@) =~= Seq::new(i32s@.len(), |i: int| i32s@[i] as int));
    assert(decode::numbers(i64s@) =~= Seq::new(i64s@.len(), |i: int| i64s@[i] as int));
}

/// The same of decimal numbers, which keep their precision and scale, and of byte strings.
pub proof fn decoded_decimals_mean_themselves(
    precision: u8,
    scale: u8,
    i32s: Vec<i32>,
    i64s: Vec<i64>,
    i128s: Vec<i128>,
    wides: Vec<[u8; 32]>,
    ids: Vec<[u8; 16]>,
    texts: Vec<Vec<u8>>,
)
    ensures
        ({
            let blobs = Seq::new(wides@.len(), |i: int| wides@[i]@);
            let keys = Seq::new(ids@.len(), |i: int| ids@[i]@);
            &&& (DecodedColumn::Decimal32 { precision, scale, values: i32s }).model()
                == Column::Scalars(
                ScalarKind::Decimal32 { precision, scale },
                Seq::new(i32s@.len(), |i: int| i32s@[i] as int),
            )
            &&& (DecodedColumn::Decimal64 { precision, scale, values: i64s }).model()
                == Column::Scalars(
                ScalarKind::Decimal64 { precision, scale },
                Seq::new(i64s@.len(), |i: int| i64s@[i] as int),
            )
            &&& (DecodedColumn::Decimal128 { precision, scale, values: i128s }).model()
                == Column::Scalars(
                ScalarKind::Decimal128 { precision, scale },
                Seq::new(i128s@.len(), |i: int| i128s@[i] as int),
            )
            &&& (DecodedColumn::Decimal256 { precision, scale, values: wides }).model()
                == Column::Wides(WideKind::Decimal256 { precision, scale }, blobs)
            &&& DecodedColumn::Int256(wides).model() == Column::Wides(WideKind::Int256, blobs)
            &&& DecodedColumn::UInt256(wides).model() == Column::Wides(WideKind::UInt256, blobs)
            &&& DecodedColumn::Uuid(ids).model() == Column::Wides(WideKind::Uuid, keys)
            &&& DecodedColumn::Ipv6(ids).model() == Column::Wides(WideKind::Ipv6, keys)
            &&& DecodedColumn::String(texts).model() == Column::Strings(
                Seq::new(texts@.len(), |i: int| texts@[i]@),
            )
        }),
{
    assert(decode::numbers(i32s@) =~= Seq::new(i32s@.len(), |i: int| i32s@[i] as int));
    assert(decode::numbers(i64s@) =~= Seq::new(i64s@.len(), |i: int| i64s@[i] as int));
    assert(decode::numbers(i128s@) =~= Seq::new(i128s@.len(), |i: int| i128s@[i] as int));
    assert(decode::blobs_of(wides@) =~= Seq::new(wides@.len(), |i: int| wides@[i]@));
    assert(decode::blobs_of(ids@) =~= Seq::new(ids@.len(), |i: int| ids@[i]@));
    assert(decode::byte_strings(texts@) =~= Seq::new(texts@.len(), |i: int| texts@[i]@));
}

/// A composite column stands for its parts: the mask, the ends of the rows and what the children
/// stand for.
pub proof fn decoded_composites_mean_their_parts(
    mask: Vec<u8>,
    offsets: Vec<u64>,
    a: DecodedColumn,
    b: DecodedColumn,
    null: bool,
    width: usize,
    name: String,
)
    ensures
        (DecodedColumn::Nullable { mask, child: Box::new(a) }).model() == (Column::Nullable {
            mask: mask@,
            child: Box::new(a.model()),
        }),
        (DecodedColumn::Array { offsets, child: Box::new(a) }).model() == (Column::Array {
            offsets: offsets@,
            child: Box::new(a.model()),
        }),
        (DecodedColumn::Mapping { offsets, keys: Box::new(a), values: Box::new(b) }).model() == (
        Column::Mapping {
            offsets: offsets@,
            keys: Box::new(a.model()),
            values: Box::new(b.model()),
        }),
        (DecodedColumn::LowCardinality {
            dict: Box::new(a),
            indices: Box::new(b),
            is_nullable_inner: null,
        }).model() == (Column::LowCardinality {
            dict: Box::new(a.model()),
            indices: Box::new(b.model()),
            is_nullable_inner: null,
        }),
        (DecodedColumn::FixedString { width, bytes: mask }).model() == (Column::FixedStrings {
            width: width as nat,
            bytes: mask@,
        }),
        DecodedColumn::Unsupported(name).model() == Column::Unsupported(name@),
{
}

/// The elements of all rows of an array end where the last row does.
pub proof fn elements_end_with_the_last_row(v: Seq<u64>, end: u64)
    ensures
        decode::last_offset(Seq::empty()) == 0,
        decode::last_offset(v.push(end)) == end,
{
}

/// Values in arrays of one width are passed over as arrays of byte strings of that width would be
/// read: the same bytes belong to them.
pub proof fn nested_values_span_their_arrays(
    s: Seq<u8>,
    n: nat,
    width: usize,
    levels: nat,
    depth: nat,
)
    requires
        decode::decoded(s, in_arrays(levels, width), n, depth) is Ok,
    ensures
        decode::nested_span(s, n, width as nat, levels) == Ok::<nat, DecodeError>(
            decode::decoded(s, in_arrays(levels, width), n, depth)->Ok_0.1,
        ),
    decreases levels,
{
    let t = in_arrays(levels, width);
    assert(decode::scalar_layout(t) is None && decode::wide_layout(t) is None
        && decode::opaque_layout(t) is None);
    if levels > 0 {
        let below = (levels - 1) as nat;
        let inner = in_arrays(below, width);
        assert(t == Type::Array(Box::new(inner)));
        assert(decode::decoded(s, t, n, depth) == decode::decoded_array(s, inner, n, depth + 1));
        let (v, used) = decode::offsets(s, n, DecodeError::ArrayOffsets)->Ok_0;
        nested_values_span_their_arrays(
            s.skip(used as int),
            decode::last_offset(v),
            width,
            below,
            depth + 1,
        );
    } else {
        assert(width * n == n * width) by (nonlinear_arith);
    }
}

/// Byte strings of one width in nested arrays.
pub open spec fn in_arrays(levels: nat, width: usize) -> Type
    decreases levels,
{
    if levels == 0 {
        Type::Plain(ColumnType::FixedString(width))
    } else {
        Type::Array(Box::new(in_arrays((levels - 1) as nat, width)))
    }
}

/// Each value of a variant counts for the alternative that it is of, and null for none.
pub proof fn values_count_for_their_alternative(d: Seq<u8>, b: u8, i: int, k: nat)
    ensures
        decode::count_of(Seq::empty(), i) == 0,
        decode::count_of(d.push(b), i) == decode::count_of(d, i) + if b == i {
            1int
        } else {
            0
        },
        decode::known_alternatives(d.push(b), k) <==> decode::known_alternatives(d, k) && (b < k || b
            == 255),
{
    assert(d.push(b).drop_last() =~= d);
    if decode::known_alternatives(d.push(b), k) {
        assert forall|j: int| 0 <= j < d.len() implies #[trigger] d[j] == 255 || d[j] < k by {
            assert(d.push(b)[j] == d[j]);
        }
        assert(d.push(b)[d.len() as int] == b);
    }
}

/// Texts stand in the order of their first characters that differ, and a text before the longer ones
/// that start with it.
pub proof fn texts_stand_in_order(p: Seq<char>, a: Seq<char>, b: Seq<char>, i: int)
    requires
        0 <= i <= p.len(),
    ensures
        !decode::stands_before(p, p, i),
        b.len() > 0 ==> decode::stands_before(p, p + b, i) && !decode::stands_before(p + b, p, i),
        a.len() > 0 && b.len() > 0 && a[0] < b[0] ==> decode::stands_before(p + a, p + b, i)
            && !decode::stands_before(p + b, p + a, i),
    decreases p.len() - i,
{
    if i < p.len() {
        texts_stand_in_order(p, a, b, i + 1);
        assert((p + a)[i] == p[i]);
        assert((p + b)[i] == p[i]);
    } else {
        if a.len() > 0 {
            assert((p + a)[i] == a[0]);
        }
        if b.len() > 0 {
            assert((p + b)[i] == b[0]);
        }
    }
}

/// The names of types as a dynamic column tells them.
pub open spec fn told_names(types: Seq<Type>) -> Seq<u8>
    decreases types.len(),
{
    if types.len() == 0 {
        Seq::empty()
    } else {
        told_names(types.drop_last()) + wire::string_wire(encode_utf8(names::name_of(types.last())))
    }
}

/// How many of the names stand before that of the alternative for all other values.
pub open spec fn shared_place(types: Seq<Type>) -> nat
    decreases types.len(),
{
    if types.len() == 0 {
        0
    } else {
        shared_place(types.drop_last()) + if decode::stands_before(
            names::name_of(types.last()),
            "SharedVariant"@,
            0,
        ) {
            1nat
        } else {
            0nat
        }
    }
}

/// The names can be told: each is that of a type that may stand in so many levels and is no longer than
/// a string may be.
pub open spec fn can_be_told(types: Seq<Type>, levels: nat) -> bool {
    forall|i: int|
        0 <= i < types.len() ==> names::has_name(#[trigger] types[i]) && roundtrip::levels_of(types[i])
            <= levels && encode_utf8(names::name_of(types[i])).len() <= wire::MAX_STRING_SIZE
}

proof fn lemma_told_names(types: Seq<Type>, levels: nat, rest: Seq<u8>)
    requires
        can_be_told(types, levels),
    ensures
        decode::dynamic_types(told_names(types) + rest, types.len(), levels) == Ok::<
            (Seq<Type>, nat, nat),
            DecodeError,
        >((types, shared_place(types), told_names(types).len())),
        shared_place(types) <= types.len(),
    decreases types.len(),
{
    if types.len() > 0 {
        let front = types.drop_last();
        let last = types[types.len() - 1];
        let a = told_names(front);
        let name = names::name_of(last);
        let b = wire::string_wire(encode_utf8(name));
        let s = told_names(types) + rest;
        assert forall|i: int| 0 <= i < front.len() implies names::has_name(#[trigger] front[i])
            && roundtrip::levels_of(front[i]) <= levels && encode_utf8(
            names::name_of(front[i]),
        ).len() <= wire::MAX_STRING_SIZE by {
            assert(front[i] == types[i]);
        }
        assert(s =~= a + (b + rest));
        lemma_told_names(front, levels, b + rest);
        assert(s.skip(a.len() as int) =~= b + rest);
        wire::string_reads_back(encode_utf8(name), rest);
        encode_utf8_valid_utf8(name);
        encode_utf8_decode_utf8(name);
        names::type_names_read_back(last, levels);
        assert(front.push(last) =~= types);
    } else {
        assert(types =~= Seq::empty());
    }
}

/// A dynamic column is not decoded, and exactly its bytes are stepped over. It tells its version, the
/// types that its values have by their names, and then holds variants of these types, among which the
/// strings of all other values take the place that their name has in order.
pub proof fn dynamic_columns_are_stepped_over(
    name: Seq<char>,
    types: Seq<Type>,
    most: nat,
    d: Seq<u8>,
    columns: Seq<Column>,
    depth: nat,
    rest: Seq<u8>,
)
    requires
        depth < 32,
        can_be_told(types, (32 - depth) as nat),
        types.len() < 255,
        most <= u64::MAX,
        d.len() <= usize::MAX,
        ({
            let all = types.insert(shared_place(types) as int, Type::Plain(ColumnType::String));
            &&& decode::known_alternatives(d, all.len())
            &&& roundtrip::well_formed_alternatives(columns, all, d, depth + 1)
            &&& roundtrip::all_fully_decoded(all)
        }),
    ensures
        ({
            let held = wire::le_bytes(0, 8) + d + roundtrip::wire_of_fields(columns);
            let told = wire::varuint_bytes(types.len()) + told_names(types);
            let first = wire::le_bytes(1, 8) + wire::varuint_bytes(most) + told + held;
            let second = wire::le_bytes(2, 8) + told + held;
            &&& decode::decoded(first + rest, Type::Dynamic(name), d.len(), depth) == Ok::<
                (Column, nat),
                DecodeError,
            >((Column::Unsupported(name), first.len()))
            &&& decode::decoded(second + rest, Type::Dynamic(name), d.len(), depth) == Ok::<
                (Column, nat),
                DecodeError,
            >((Column::Unsupported(name), second.len()))
        }),
{
    let levels = (32 - depth) as nat;
    let all = types.insert(shared_place(types) as int, Type::Plain(ColumnType::String));
    let held = wire::le_bytes(0, 8) + d + roundtrip::wire_of_fields(columns);
    let told = wire::varuint_bytes(types.len()) + told_names(types);
    let first = wire::le_bytes(1, 8) + wire::varuint_bytes(most) + told;
    let second = wire::le_bytes(2, 8) + told;
    assert(all.len() <= 255) by {
        lemma_told_names(types, levels, Seq::empty());
    }
    assert(decode::variant_span(held + rest, all, d.len(), depth + 1) == Ok::<nat, DecodeError>(
        held.len(),
    )) by {
        roundtrip::variants_are_stepped_over(name, all, d, columns, depth, rest);
        lemma_variant_span(name, all, held + rest, d.len(), depth, held.len());
    }
    assert(decode::dynamic_head(first + (held + rest), levels) == Ok::<(Seq<Type>, nat), DecodeError>(
        (all, first.len()),
    )) by {
        lemma_first_head(types, levels, most, held + rest);
    }
    assert(decode::dynamic_head(second + (held + rest), levels) == Ok::<
        (Seq<Type>, nat),
        DecodeError,
    >((all, second.len()))) by {
        lemma_second_head(types, levels, held + rest);
    }
    lemma_dynamic_span(name, all, first, held, rest, d.len(), depth);
    lemma_dynamic_span(name, all, second, held, rest, d.len(), depth);
}

proof fn lemma_variant_span(
    name: Seq<char>,
    types: Seq<Type>,
    s: Seq<u8>,
    n: nat,
    depth: nat,
    used: nat,
)
    requires
        decode::decoded(s, Type::Variant { name, types }, n, depth) == Ok::<
            (Column, nat),
            DecodeError,
        >((Column::Unsupported(name), used)),
    ensures
        decode::variant_span(s, types, n, depth + 1) == Ok::<nat, DecodeError>(used),
{
    let t = Type::Variant { name, types };
    assert(decode::scalar_layout(t) is None && decode::wide_layout(t) is None
        && decode::opaque_layout(t) is None);
}

proof fn lemma_dynamic_span(
    name: Seq<char>,
    all: Seq<Type>,
    head: Seq<u8>,
    held: Seq<u8>,
    rest: Seq<u8>,
    n: nat,
    depth: nat,
)
    requires
        depth < 32,
        n <= usize::MAX,
        all.len() <= 255,
        decode::dynamic_head(head + (held + rest), (32 - depth) as nat) == Ok::<
            (Seq<Type>, nat),
            DecodeError,
        >((all, head.len())),
        decode::variant_span(held + rest, all, n, depth + 1) == Ok::<nat, DecodeError>(held.len()),
    ensures
        decode::decoded(head + held + rest, Type::Dynamic(name), n, depth) == Ok::<
            (Column, nat),
            DecodeError,
        >((Column::Unsupported(name), (head + held).len())),
{
    let s = head + (held + rest);
    let t = Type::Dynamic(name);
    assert(head + held + rest =~= s);
    assert(s.skip(head.len() as int) =~= held + rest);
    assert(decode::scalar_layout(t) is None && decode::wide_layout(t) is None
        && decode::opaque_layout(t) is None);
    assert(decode::dynamic_span(s, n, depth + 1) == Ok::<nat, DecodeError>(
        head.len() + held.len(),
    ));
}

proof fn lemma_first_head(types: Seq<Type>, levels: nat, most: nat, rest: Seq<u8>)
    requires
        can_be_told(types, levels),
        types.len() < 255,
        most <= u64::MAX,
    ensures
        ({
            let all = types.insert(shared_place(types) as int, Type::Plain(ColumnType::String));
            let told = wire::varuint_bytes(types.len()) + told_names(types);
            let first = wire::le_bytes(1, 8) + wire::varuint_bytes(most) + told;
            decode::dynamic_head(first + rest, levels) == Ok::<(Seq<Type>, nat), DecodeError>(
                (all, first.len()),
            )
        }),
{
    let m = wire::varuint_bytes(most);
    let c = wire::varuint_bytes(types.len());
    let w = told_names(types);
    let v = wire::le_bytes(1, 8);
    let s = v + m + (c + w) + rest;
    assert(v.len() == 8 && wire::le_nat(v) == 1) by {
        wire::lemma_pow256_values();
        wire::le_bytes_read_back(1, 8);
    }
    assert(s.take(8) =~= v);
    assert(s.skip(8) =~= m + (c + (w + rest)));
    assert(s.skip((8 + m.len()) as int) =~= c + (w + rest));
    assert(s.skip((8 + m.len() + c.len()) as int) =~= w + rest);
    wire::varuint_reads_back(most, c + (w + rest));
    wire::varuint_reads_back(types.len(), w + rest);
    lemma_told_names(types, levels, rest);
}

proof fn lemma_second_head(types: Seq<Type>, levels: nat, rest: Seq<u8>)
    requires
        can_be_told(types, levels),
        types.len() < 255,
    ensures
        ({
            let all = types.insert(shared_place(types) as int, Type::Plain(ColumnType::String));
            let second = wire::le_bytes(2, 8) + (wire::varuint_bytes(types.len()) + told_names(types));
            decode::dynamic_head(second + rest, levels) == Ok::<(Seq<Type>, nat), DecodeError>(
                (all, second.len()),
            )
        }),
{
    let c = wire::varuint_bytes(types.len());
    let w = told_names(types);
    let v = wire::le_bytes(2, 8);
    let s = v + (c + w) + rest;
    assert(v.len() == 8 && wire::le_nat(v) == 2) by {
        wire::lemma_pow256_values();
        wire::le_bytes_read_back(2, 8);
    }
    assert(s.take(8) =~= v);
    assert(s.skip(8) =~= c + (w + rest));
    assert(s.skip((8 + c.len()) as int) =~= w + rest);
    wire::varuint_reads_back(types.len(), w + rest);
    lemma_told_names(types, levels, rest);
}

/// Documents are passed over as strings would be read.
pub proof fn documents_span_their_strings(s: Seq<u8>, n: nat, depth: nat)
    requires
        decode::decoded(s, Type::Plain(ColumnType::String), n, depth) is Ok,
    ensures
        decode::opaque_span(s, n, Opaque::Strings) == Ok::<nat, DecodeError>(
            decode::decoded(s, Type::Plain(ColumnType::String), n, depth)->Ok_0.1,
        ),
{
}

/// The ends of rows never go back: where one does, that is the error that was asked for.
pub proof fn ends_never_go_back(s: Seq<u8>, n: nat, bad: DecodeError)
    requires
        decode::offsets(s, n, bad) is Ok,
        (n + 1) * 8 <= s.len(),
    ensures
        ({
            let (v, used) = decode::offsets(s, n, bad)->Ok_0;
            let end = wire::le_nat(s.subrange((8 * n) as int, (8 * n + 8) as int));
            &&& v.len() == n
            &&& used == 8 * n
            &&& end < decode::last_offset(v) ==> decode::offsets(s, n + 1, bad) == Err::<
                (Seq<u64>, nat),
                DecodeError,
            >(bad)
            &&& end >= decode::last_offset(v) ==> decode::offsets(s, n + 1, bad) == Ok::<
                (Seq<u64>, nat),
                DecodeError,
            >((v.push(end as u64), used + 8))
        }),
{
    lemma_ends_count(s, n, bad);
}

proof fn lemma_ends_count(s: Seq<u8>, n: nat, bad: DecodeError)
    ensures
        decode::offsets(s, n, bad) matches Ok((v, used)) ==> v.len() == n && used == 8 * n,
    decreases n,
{
    if n > 0 {
        lemma_ends_count(s, (n - 1) as nat, bad);
    }
}

/// A block has its columns with their names and type names, in their order.
pub proof fn blocks_have_their_columns(
    columns: Seq<DecodedColumn>,
    schema: Seq<(String, String)>,
    i: int,
)
    requires
        0 <= i < columns.len(),
    ensures
        decode::block_columns(columns, schema).len() == columns.len(),
        decode::block_columns(columns, schema)[i].name == schema[i].0@,
        decode::block_columns(columns, schema)[i].type_text == schema[i].1@,
        decode::block_columns(columns, schema)[i].values == columns[i].model(),
{
}

/// Variants whose alternatives are told in another way than a byte per row are refused, and so are
/// values of an alternative that the type does not have.
pub proof fn other_ways_to_tell_alternatives_are_refused(
    s: Seq<u8>,
    types: Seq<Type>,
    n: nat,
    depth: nat,
)
    requires
        8 + n <= s.len(),
    ensures
        ({
            let mode = wire::le_nat(s.take(8));
            let r = decode::variant_span(s, types, n, depth);
            &&& mode != 0 ==> r == Err::<nat, DecodeError>(DecodeError::VariantMode(mode as u64))
            &&& mode == 0 && (exists|i: int|
                8 <= i < 8 + n && #[trigger] s[i] != 255 && s[i] >= types.len()) ==> r == Err::<
                nat,
                DecodeError,
            >(DecodeError::VariantAlternative)
        }),
{
    let d = s.subrange(8, (8 + n) as int);
    if exists|i: int| 8 <= i < 8 + n && #[trigger] s[i] != 255 && s[i] >= types.len() {
        let i = choose|i: int| 8 <= i < 8 + n && #[trigger] s[i] != 255 && s[i] >= types.len();
        assert(d[i - 8] == s[i]);
        assert(!decode::known_alternatives(d, types.len()));
    }
}

/// A dynamic column of another version than the first two is refused.
pub proof fn other_dynamic_versions_are_refused(s: Seq<u8>, levels: nat)
    requires
        8 <= s.len(),
        wire::le_nat(s.take(8)) != 1,
        wire::le_nat(s.take(8)) != 2,
    ensures
        decode::dynamic_head(s, levels) == Err::<(Seq<Type>, nat), DecodeError>(
            DecodeError::DynamicVersion(wire::le_nat(s.take(8)) as u64),
        ),
{
}

} // verus!
