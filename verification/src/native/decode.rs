//! Decoding of Native data blocks: one typed column per announced column, with nested
//! columns for the composite types.
use vstd::prelude::*;

use crate::native::column_type::{self, ColumnType, Type};
use crate::native::wire::{self, read_string, read_utf8_string, read_var_uint, LeScalar, WireError};
use crate::text::{self, push_decimal};

verus! {

/// How deep composite types may be nested in a column that is decoded.
pub const MAX_DECODE_DEPTH: usize = 32;

/// From this protocol revision on, a flag for custom serialization stands before the
/// values of a column.
pub const DBMS_MIN_PROTOCOL_VERSION_WITH_CUSTOM_SERIALIZATION: u64 = 54454;

/// One column of a decoded block.
#[derive(Debug)]
#[allow(inconsistent_fields)]
#[non_exhaustive]
pub enum DecodedColumn {
    UInt8(Vec<u8>),
    UInt16(Vec<u16>),
    UInt32(Vec<u32>),
    UInt64(Vec<u64>),
    Int8(Vec<i8>),
    Int16(Vec<i16>),
    Int32(Vec<i32>),
    Int64(Vec<i64>),
    Int128(Vec<i128>),
    UInt128(Vec<u128>),
    /// 256-bit integers as raw little-endian bytes.
    Int256(Vec<[u8; 32]>),
    UInt256(Vec<[u8; 32]>),
    /// The IEEE 754 bits of each value.
    Float32(Vec<u32>),
    /// The IEEE 754 bits of each value.
    Float64(Vec<u64>),
    /// The backing integers: a value is `backing / 10^scale`.
    Decimal32 { precision: u8, scale: u8, values: Vec<i32> },
    Decimal64 { precision: u8, scale: u8, values: Vec<i64> },
    Decimal128 { precision: u8, scale: u8, values: Vec<i128> },
    Decimal256 { precision: u8, scale: u8, values: Vec<[u8; 32]> },
    String(Vec<Vec<u8>>),
    FixedString { width: usize, bytes: Vec<u8> },
    Date(Vec<u16>),
    /// Signed days since the Unix epoch.
    Date32(Vec<i32>),
    DateTime(Vec<u32>),
    /// Ticks of `precision` sub-second digits.
    DateTime64 { precision: u8, timezone: Option<String>, values: Vec<i64> },
    Uuid(Vec<[u8; 16]>),
    Ipv4(Vec<u32>),
    Ipv6(Vec<[u8; 16]>),
    /// Row `i` is null where `mask[i]` is 1; the child holds a placeholder there.
    Nullable { mask: Vec<u8>, child: Box<DecodedColumn> },
    /// Row `i` spans `child[offsets[i-1]..offsets[i]]`.
    Array { offsets: Vec<u64>, child: Box<DecodedColumn> },
    /// Row `i` is `dict[indices[i]]`; where the inner type is nullable, index 0 is null.
    LowCardinality {
        dict: Box<DecodedColumn>,
        indices: Box<DecodedColumn>,
        is_nullable_inner: bool,
    },
    Tuple(Vec<DecodedColumn>),
    /// Row `i` spans the pairs `offsets[i-1]..offsets[i]` of keys and values.
    Mapping { offsets: Vec<u64>, keys: Box<DecodedColumn>, values: Box<DecodedColumn> },
    /// A type that is known but not decoded. Its bytes have been consumed.
    Unsupported(String),
}

/// Why a column or a block could not be decoded.
#[derive(Debug)]
pub enum DecodeError {
    /// A number or a string could not be read.
    Wire(WireError),
    TooDeep,
    RowCount(u64),
    NumericOverflow,
    WideOverflow,
    FixedStringOverflow,
    ArrayOffsets,
    MapOffsets,
    GlobalDictionary,
    NoDictionary,
    IndexCount { indices: u64, rows: u64 },
    /// The alternatives of a variant are told in a way that is not known.
    VariantMode(u64),
    /// A value is of an alternative that its type does not have.
    VariantAlternative,
    /// The types of a dynamic column are told in a way that is not known.
    DynamicVersion(u64),
    /// A dynamic column holds a type that is not known.
    DynamicType,
}

/// The bytes end before the value does.
pub open spec fn truncated() -> DecodeError {
    DecodeError::Wire(WireError::Truncated)
}

/// What the numbers of a column stand for.
pub enum ScalarKind {
    UInt8,
    UInt16,
    UInt32,
    UInt64,
    UInt128,
    Int8,
    Int16,
    Int32,
    Int64,
    Int128,
    Float32,
    Float64,
    Decimal32 { precision: u8, scale: u8 },
    Decimal64 { precision: u8, scale: u8 },
    Decimal128 { precision: u8, scale: u8 },
    Date,
    Date32,
    DateTime,
    DateTime64 { precision: u8, timezone: Option<Seq<char>> },
    Ipv4,
}

/// What the fixed-width byte strings of a column stand for.
pub enum WideKind {
    Int256,
    UInt256,
    Decimal256 { precision: u8, scale: u8 },
    Uuid,
    Ipv6,
}

/// The contents of a column, as mathematical values.
pub enum Column {
    Scalars(ScalarKind, Seq<int>),
    Wides(WideKind, Seq<Seq<u8>>),
    Strings(Seq<Seq<u8>>),
    FixedStrings { width: nat, bytes: Seq<u8> },
    Nullable { mask: Seq<u8>, child: Box<Column> },
    Array { offsets: Seq<u64>, child: Box<Column> },
    LowCardinality { dict: Box<Column>, indices: Box<Column>, is_nullable_inner: bool },
    Tuple(Seq<Column>),
    Mapping { offsets: Seq<u64>, keys: Box<Column>, values: Box<Column> },
    Unsupported(Seq<char>),
}

/// The numbers that a list of scalars stands for.
pub open spec fn numbers<T: LeScalar>(s: Seq<T>) -> Seq<int> {
    Seq::new(s.len(), |i: int| s[i].value())
}

/// The bytes of a list of fixed-width byte strings.
pub open spec fn blobs_of<const N: usize>(s: Seq<[u8; N]>) -> Seq<Seq<u8>> {
    Seq::new(s.len(), |i: int| s[i]@)
}

/// The bytes of a list of byte strings.
pub open spec fn byte_strings(s: Seq<Vec<u8>>) -> Seq<Seq<u8>> {
    Seq::new(s.len(), |i: int| s[i]@)
}

impl DecodedColumn {
    /// The contents of the column.
    pub open spec fn model(self) -> Column
        decreases self,
    {
        match self {
            DecodedColumn::UInt8(v) => Column::Scalars(ScalarKind::UInt8, numbers(v@)),
            DecodedColumn::UInt16(v) => Column::Scalars(ScalarKind::UInt16, numbers(v@)),
            DecodedColumn::UInt32(v) => Column::Scalars(ScalarKind::UInt32, numbers(v@)),
            DecodedColumn::UInt64(v) => Column::Scalars(ScalarKind::UInt64, numbers(v@)),
            DecodedColumn::UInt128(v) => Column::Scalars(ScalarKind::UInt128, numbers(v@)),
            DecodedColumn::Int8(v) => Column::Scalars(ScalarKind::Int8, numbers(v@)),
            DecodedColumn::Int16(v) => Column::Scalars(ScalarKind::Int16, numbers(v@)),
            DecodedColumn::Int32(v) => Column::Scalars(ScalarKind::Int32, numbers(v@)),
            DecodedColumn::Int64(v) => Column::Scalars(ScalarKind::Int64, numbers(v@)),
            DecodedColumn::Int128(v) => Column::Scalars(ScalarKind::Int128, numbers(v@)),
            DecodedColumn::Float32(v) => Column::Scalars(ScalarKind::Float32, numbers(v@)),
            DecodedColumn::Float64(v) => Column::Scalars(ScalarKind::Float64, numbers(v@)),
            DecodedColumn::Decimal32 { precision, scale, values } => Column::Scalars(
                ScalarKind::Decimal32 { precision, scale },
                numbers(values@),
            ),
            DecodedColumn::Decimal64 { precision, scale, values } => Column::Scalars(
                ScalarKind::Decimal64 { precision, scale },
                numbers(values@),
            ),
            DecodedColumn::Decimal128 { precision, scale, values } => Column::Scalars(
                ScalarKind::Decimal128 { precision, scale },
                numbers(values@),
            ),
            DecodedColumn::Date(v) => Column::Scalars(ScalarKind::Date, numbers(v@)),
            DecodedColumn::Date32(v) => Column::Scalars(ScalarKind::Date32, numbers(v@)),
            DecodedColumn::DateTime(v) => Column::Scalars(ScalarKind::DateTime, numbers(v@)),
            DecodedColumn::DateTime64 { precision, timezone, values } => Column::Scalars(
                ScalarKind::DateTime64 { precision, timezone: column_type::text_of(timezone) },
                numbers(values@),
            ),
            DecodedColumn::Ipv4(v) => Column::Scalars(ScalarKind::Ipv4, numbers(v@)),
            DecodedColumn::Int256(v) => Column::Wides(WideKind::Int256, blobs_of(v@)),
            DecodedColumn::UInt256(v) => Column::Wides(WideKind::UInt256, blobs_of(v@)),
            DecodedColumn::Decimal256 { precision, scale, values } => Column::Wides(
                WideKind::Decimal256 { precision, scale },
                blobs_of(values@),
            ),
            DecodedColumn::Uuid(v) => Column::Wides(WideKind::Uuid, blobs_of(v@)),
            DecodedColumn::Ipv6(v) => Column::Wides(WideKind::Ipv6, blobs_of(v@)),
            DecodedColumn::String(v) => Column::Strings(byte_strings(v@)),
            DecodedColumn::FixedString { width, bytes } => Column::FixedStrings {
                width: width as nat,
                bytes: bytes@,
            },
            DecodedColumn::Nullable { mask, child } => Column::Nullable {
                mask: mask@,
                child: Box::new(child.model()),
            },
            DecodedColumn::Array { offsets, child } => Column::Array {
                offsets: offsets@,
                child: Box::new(child.model()),
            },
            DecodedColumn::LowCardinality { dict, indices, is_nullable_inner } =>
                Column::LowCardinality {
                dict: Box::new(dict.model()),
                indices: Box::new(indices.model()),
                is_nullable_inner,
            },
            DecodedColumn::Tuple(fields) => Column::Tuple(
                Seq::new(
                    fields@.len(),
                    |i: int|
                        if 0 <= i < fields@.len() {
                            fields@[i].model()
                        } else {
                            arbitrary()
                        },
                ),
            ),
            DecodedColumn::Mapping { offsets, keys, values } => Column::Mapping {
                offsets: offsets@,
                keys: Box::new(keys.model()),
                values: Box::new(values.model()),
            },
            DecodedColumn::Unsupported(name) => Column::Unsupported(name@),
        }
    }
}

/// The contents of a list of columns.
pub open spec fn columns_of(s: Seq<DecodedColumn>) -> Seq<Column> {
    Seq::new(s.len(), |i: int| s[i].model())
}

/// How many rows a column has. A composite column counts its own rows, not those of its
/// children; a column that was not decoded counts none.
pub open spec fn rows_of(c: Column) -> nat
    decreases c,
{
    match c {
        Column::Scalars(_, v) => v.len(),
        Column::Wides(_, v) => v.len(),
        Column::Strings(v) => v.len(),
        Column::FixedStrings { width, bytes } => if width == 0 {
            0
        } else {
            bytes.len() / width
        },
        Column::Nullable { mask, .. } => mask.len(),
        Column::Array { offsets, .. } => offsets.len(),
        Column::LowCardinality { indices, .. } => rows_of(*indices),
        Column::Tuple(fields) => if fields.len() == 0 {
            0
        } else {
            rows_of(fields[0])
        },
        Column::Mapping { offsets, .. } => offsets.len(),
        Column::Unsupported(_) => 0,
    }
}

impl DecodedColumn {
    /// Number of rows that the column carries.
    #[must_use]
    pub fn row_count(&self) -> (n: usize)
        ensures
            n == rows_of(self.model()),
        decreases self,
    {
        match self {
            DecodedColumn::UInt8(v) => v.len(),
            DecodedColumn::UInt16(v) => v.len(),
            DecodedColumn::UInt32(v) => v.len(),
            DecodedColumn::UInt64(v) => v.len(),
            DecodedColumn::Int8(v) => v.len(),
            DecodedColumn::Int16(v) => v.len(),
            DecodedColumn::Int32(v) => v.len(),
            DecodedColumn::Int64(v) => v.len(),
            DecodedColumn::Int128(v) => v.len(),
            DecodedColumn::UInt128(v) => v.len(),
            DecodedColumn::Int256(v) => v.len(),
            DecodedColumn::UInt256(v) => v.len(),
            DecodedColumn::Float32(v) => v.len(),
            DecodedColumn::Float64(v) => v.len(),
            DecodedColumn::Decimal32 { values, .. } => values.len(),
            DecodedColumn::Decimal64 { values, .. } => values.len(),
            DecodedColumn::Decimal128 { values, .. } => values.len(),
            DecodedColumn::Decimal256 { values, .. } => values.len(),
            DecodedColumn::String(v) => v.len(),
            DecodedColumn::FixedString { width, bytes } => {
                if *width == 0 {
                    0
                } else {
                    bytes.len() / *width
                }
            },
            DecodedColumn::Date(v) => v.len(),
            DecodedColumn::Date32(v) => v.len(),
            DecodedColumn::DateTime(v) => v.len(),
            DecodedColumn::DateTime64 { values, .. } => values.len(),
            DecodedColumn::Uuid(v) => v.len(),
            DecodedColumn::Ipv4(v) => v.len(),
            DecodedColumn::Ipv6(v) => v.len(),
            DecodedColumn::Nullable { mask, .. } => mask.len(),
            DecodedColumn::Array { offsets, .. } => offsets.len(),
            DecodedColumn::LowCardinality { indices, .. } => indices.row_count(),
            DecodedColumn::Tuple(fields) => {
                if fields.len() == 0 {
                    0
                } else {
                    fields[0].row_count()
                }
            },
            DecodedColumn::Mapping { offsets, .. } => offsets.len(),
            DecodedColumn::Unsupported(_) => 0,
        }
    }
}

/// The number at position `i` of a run of `width`-byte little-endian numbers.
pub open spec fn value_at(s: Seq<u8>, i: int, width: nat, signed: bool) -> int {
    wire::with_sign(wire::le_nat(s.subrange(i * width, i * width + width)), width, signed)
}

/// A run of `n` little-endian numbers at the start of the bytes.
pub open spec fn scalars(s: Seq<u8>, n: nat, width: nat, signed: bool) -> Result<
    (Seq<int>, nat),
    DecodeError,
> {
    if n * width > usize::MAX {
        Err(DecodeError::NumericOverflow)
    } else if n * width > s.len() {
        Err(truncated())
    } else {
        Ok((Seq::new(n, |i: int| value_at(s, i, width, signed)), n * width))
    }
}

/// A run of `n` byte strings of one width at the start of the bytes.
pub open spec fn blobs(s: Seq<u8>, n: nat, width: nat) -> Result<
    (Seq<Seq<u8>>, nat),
    DecodeError,
> {
    if n * width > s.len() {
        Err(truncated())
    } else {
        Ok((Seq::new(n, |i: int| s.subrange(i * width, i * width + width)), n * width))
    }
}

/// The first `n` bytes.
pub open spec fn raw(s: Seq<u8>, n: nat) -> Result<(Seq<u8>, nat), DecodeError> {
    if n > s.len() {
        Err(truncated())
    } else {
        Ok((s.take(n as int), n))
    }
}

/// A run of `n` strings at the start of the bytes.
pub open spec fn strings(s: Seq<u8>, n: nat) -> Result<(Seq<Seq<u8>>, nat), DecodeError>
    decreases n,
{
    if n == 0 {
        Ok((Seq::empty(), 0))
    } else {
        match strings(s, (n - 1) as nat) {
            Err(e) => Err(e),
            Ok((v, used)) => match wire::string_bytes(s.skip(used as int)) {
                Err(e) => Err(DecodeError::Wire(e)),
                Ok((b, k)) => Ok((v.push(b), used + k)),
            },
        }
    }
}

/// Where the last row ends.
pub open spec fn last_offset(v: Seq<u64>) -> nat {
    if v.len() == 0 {
        0
    } else {
        v.last() as nat
    }
}

/// A run of `n` end offsets at the start of the bytes. They never decrease; where they do,
/// the error is `bad`.
pub open spec fn offsets(s: Seq<u8>, n: nat, bad: DecodeError) -> Result<
    (Seq<u64>, nat),
    DecodeError,
>
    decreases n,
{
    if n == 0 {
        Ok((Seq::empty(), 0))
    } else {
        match offsets(s, (n - 1) as nat, bad) {
            Err(e) => Err(e),
            Ok((v, used)) => if used + 8 > s.len() {
                Err(truncated())
            } else {
                let end = wire::le_nat(s.subrange(used as int, (used + 8) as int));
                if end < last_offset(v) {
                    Err(bad)
                } else {
                    Ok((v.push(end as u64), used + 8))
                }
            },
        }
    }
}

/// The types whose columns are runs of numbers: what the numbers are, their width and
/// whether they have a sign.
pub open spec fn scalar_layout(t: Type) -> Option<(ScalarKind, nat, bool)> {
    match t {
        Type::DateTime64 { precision, timezone } => Some(
            (ScalarKind::DateTime64 { precision, timezone }, 8, true),
        ),
        Type::Plain(p) => match p {
            ColumnType::UInt8 => Some((ScalarKind::UInt8, 1, false)),
            ColumnType::Enum8 => Some((ScalarKind::UInt8, 1, false)),
            ColumnType::Int8 => Some((ScalarKind::Int8, 1, true)),
            ColumnType::UInt16 => Some((ScalarKind::UInt16, 2, false)),
            ColumnType::Enum16 => Some((ScalarKind::UInt16, 2, false)),
            ColumnType::Int16 => Some((ScalarKind::Int16, 2, true)),
            ColumnType::UInt32 => Some((ScalarKind::UInt32, 4, false)),
            ColumnType::Int32 => Some((ScalarKind::Int32, 4, true)),
            ColumnType::UInt64 => Some((ScalarKind::UInt64, 8, false)),
            ColumnType::Int64 => Some((ScalarKind::Int64, 8, true)),
            ColumnType::Int128 => Some((ScalarKind::Int128, 16, true)),
            ColumnType::UInt128 => Some((ScalarKind::UInt128, 16, false)),
            ColumnType::Float32 => Some((ScalarKind::Float32, 4, false)),
            ColumnType::Float64 => Some((ScalarKind::Float64, 8, false)),
            ColumnType::Decimal32 { precision, scale } => Some(
                (ScalarKind::Decimal32 { precision, scale }, 4, true),
            ),
            ColumnType::Decimal64 { precision, scale } => Some(
                (ScalarKind::Decimal64 { precision, scale }, 8, true),
            ),
            ColumnType::Decimal128 { precision, scale } => Some(
                (ScalarKind::Decimal128 { precision, scale }, 16, true),
            ),
            ColumnType::Date => Some((ScalarKind::Date, 2, false)),
            ColumnType::Date32 => Some((ScalarKind::Date32, 4, true)),
            ColumnType::DateTime => Some((ScalarKind::DateTime, 4, false)),
            ColumnType::IPv4 => Some((ScalarKind::Ipv4, 4, false)),
            _ => None,
        },
        _ => None,
    }
}

/// The types whose columns are runs of fixed-width byte strings, and the width.
pub open spec fn wide_layout(t: Type) -> Option<(WideKind, nat)> {
    match t {
        Type::Plain(p) => match p {
            ColumnType::Int256 => Some((WideKind::Int256, 32)),
            ColumnType::UInt256 => Some((WideKind::UInt256, 32)),
            ColumnType::Decimal256 { precision, scale } => Some(
                (WideKind::Decimal256 { precision, scale }, 32),
            ),
            ColumnType::Uuid => Some((WideKind::Uuid, 16)),
            ColumnType::IPv6 => Some((WideKind::Ipv6, 16)),
            _ => None,
        },
        _ => None,
    }
}

/// How the values of a type that is not decoded lie on the wire: as strings, or as
/// values of one width in `levels` nested arrays.
pub enum Opaque {
    Strings,
    Fixed { width: usize, levels: usize },
}

/// The types that are known but not decoded.
pub open spec fn opaque_layout(t: Type) -> Option<(Seq<char>, Opaque)> {
    match t {
        Type::Json(name) => Some((name, Opaque::Strings)),
        Type::Plain(p) => match p {
            ColumnType::BFloat16 => Some(("BFloat16"@, Opaque::Fixed { width: 2, levels: 0 })),
            ColumnType::Time => Some(("Time"@, Opaque::Fixed { width: 4, levels: 0 })),
            ColumnType::Time64 { precision } => Some(
                (
                    "Time64("@ + text::decimal(precision as nat) + ")"@,
                    Opaque::Fixed { width: 8, levels: 0 },
                ),
            ),
            ColumnType::Point => Some(("Point"@, Opaque::Fixed { width: 16, levels: 0 })),
            ColumnType::Ring => Some(("Ring"@, Opaque::Fixed { width: 16, levels: 1 })),
            ColumnType::LineString => Some(("LineString"@, Opaque::Fixed { width: 16, levels: 1 })),
            ColumnType::MultiLineString => Some(
                ("MultiLineString"@, Opaque::Fixed { width: 16, levels: 2 }),
            ),
            ColumnType::Polygon => Some(("Polygon"@, Opaque::Fixed { width: 16, levels: 2 })),
            ColumnType::MultiPolygon => Some(
                ("MultiPolygon"@, Opaque::Fixed { width: 16, levels: 3 }),
            ),
            _ => None,
        },
        _ => None,
    }
}

/// How many bytes `n` values of one width take that lie in `levels` nested arrays.
pub open spec fn nested_span(s: Seq<u8>, n: nat, width: nat, levels: nat) -> Result<
    nat,
    DecodeError,
>
    decreases levels,
{
    if n > usize::MAX {
        Err(DecodeError::RowCount(n as u64))
    } else if levels == 0 {
        if n * width > usize::MAX {
            Err(DecodeError::NumericOverflow)
        } else if n * width > s.len() {
            Err(truncated())
        } else {
            Ok(n * width)
        }
    } else {
        match offsets(s, n, DecodeError::ArrayOffsets) {
            Err(e) => Err(e),
            Ok((v, used)) => match nested_span(
                s.skip(used as int),
                last_offset(v),
                width,
                (levels - 1) as nat,
            ) {
                Err(e) => Err(e),
                Ok(k) => Ok(used + k),
            },
        }
    }
}

/// How many bytes `n` values of a type that is not decoded take.
pub open spec fn opaque_span(s: Seq<u8>, n: nat, layout: Opaque) -> Result<nat, DecodeError> {
    match layout {
        Opaque::Strings => match strings(s, n) {
            Err(e) => Err(e),
            Ok((_, used)) => Ok(used),
        },
        Opaque::Fixed { width, levels } => nested_span(s, n, width as nat, levels as nat),
    }
}

/// A column of numbers at the start of the bytes.
pub open spec fn scalar_column(s: Seq<u8>, t: Type, n: nat) -> Result<(Column, nat), DecodeError> {
    let (kind, width, signed) = scalar_layout(t)->0;
    match scalars(s, n, width, signed) {
        Err(e) => Err(e),
        Ok((v, used)) => Ok((Column::Scalars(kind, v), used)),
    }
}

/// A column of fixed-width byte strings at the start of the bytes. Where they are longer
/// than 16 bytes, their total length has to fit in memory.
pub open spec fn wide_column(s: Seq<u8>, t: Type, n: nat) -> Result<(Column, nat), DecodeError> {
    let (kind, width) = wide_layout(t)->0;
    if width == 32 && n * width > usize::MAX {
        Err(DecodeError::WideOverflow)
    } else {
        match blobs(s, n, width) {
            Err(e) => Err(e),
            Ok((v, used)) => Ok((Column::Wides(kind, v), used)),
        }
    }
}

/// The column of type `t` with `n` rows at the start of the bytes, and how many bytes it
/// takes. `depth` counts the composite types around it.
pub open spec fn decoded(s: Seq<u8>, t: Type, n: nat, depth: nat) -> Result<
    (Column, nat),
    DecodeError,
>
    decreases 34 - depth, 0nat,
{
    if depth > MAX_DECODE_DEPTH {
        Err(DecodeError::TooDeep)
    } else if n > usize::MAX {
        Err(DecodeError::RowCount(n as u64))
    } else if scalar_layout(t) is Some {
        scalar_column(s, t, n)
    } else if wide_layout(t) is Some {
        wide_column(s, t, n)
    } else if let Some((name, layout)) = opaque_layout(t) {
        match opaque_span(s, n, layout) {
            Err(e) => Err(e),
            Ok(used) => Ok((Column::Unsupported(name), used)),
        }
    } else {
        match t {
            Type::Plain(ColumnType::FixedString(width)) => if width * n > usize::MAX {
                Err(DecodeError::FixedStringOverflow)
            } else {
                match raw(s, (width * n) as nat) {
                    Err(e) => Err(e),
                    Ok((bytes, used)) => Ok(
                        (Column::FixedStrings { width: width as nat, bytes }, used),
                    ),
                }
            },
            Type::Plain(_) | Type::DateTime64 { .. } | Type::Json(_) => match strings(s, n) {
                Err(e) => Err(e),
                Ok((v, used)) => Ok((Column::Strings(v), used)),
            },
            Type::Variant { name, types } => match variant_span(s, types, n, depth + 1) {
                Err(e) => Err(e),
                Ok(used) => Ok((Column::Unsupported(name), used)),
            },
            Type::Dynamic(name) => match dynamic_span(s, n, depth + 1) {
                Err(e) => Err(e),
                Ok(used) => Ok((Column::Unsupported(name), used)),
            },
            Type::Nullable(inner) => decoded_nullable(s, *inner, n, depth + 1),
            Type::Array(inner) => decoded_array(s, *inner, n, depth + 1),
            Type::Tuple(types) => match decoded_fields(s, types, n, depth + 1) {
                Err(e) => Err(e),
                Ok((fields, used)) => Ok((Column::Tuple(fields), used)),
            },
            Type::Mapping(key_type, value_type) => decoded_mapping(
                s,
                *key_type,
                *value_type,
                n,
                depth + 1,
            ),
            Type::LowCardinality(inner) => decoded_low_cardinality(s, *inner, n, depth + 1),
            Type::SimpleAggregateFunction(inner) => decoded(s, *inner, n, depth + 1),
        }
    }
}

/// A column of nullable values: a mask of one byte per row, then the values.
pub open spec fn decoded_nullable(s: Seq<u8>, inner: Type, n: nat, depth: nat) -> Result<
    (Column, nat),
    DecodeError,
>
    decreases 34 - depth, 1nat,
{
    match raw(s, n) {
        Err(e) => Err(e),
        Ok((mask, used)) => match decoded(s.skip(used as int), inner, n, depth) {
            Err(e) => Err(e),
            Ok((child, k)) => Ok((Column::Nullable { mask, child: Box::new(child) }, used + k)),
        },
    }
}

/// A column of arrays: where each row ends, then the elements of all rows.
pub open spec fn decoded_array(s: Seq<u8>, inner: Type, n: nat, depth: nat) -> Result<
    (Column, nat),
    DecodeError,
>
    decreases 34 - depth, 1nat,
{
    match offsets(s, n, DecodeError::ArrayOffsets) {
        Err(e) => Err(e),
        Ok((v, used)) => match decoded(s.skip(used as int), inner, last_offset(v), depth) {
            Err(e) => Err(e),
            Ok((child, k)) => Ok(
                (Column::Array { offsets: v, child: Box::new(child) }, used + k),
            ),
        },
    }
}

/// A column of maps: where each row ends, then the keys of all rows, then the values.
pub open spec fn decoded_mapping(
    s: Seq<u8>,
    key_type: Type,
    value_type: Type,
    n: nat,
    depth: nat,
) -> Result<(Column, nat), DecodeError>
    decreases 34 - depth, 1nat,
{
    match offsets(s, n, DecodeError::MapOffsets) {
        Err(e) => Err(e),
        Ok((v, used)) => match decoded(s.skip(used as int), key_type, last_offset(v), depth) {
            Err(e) => Err(e),
            Ok((keys, k)) => match decoded(
                s.skip((used + k) as int),
                value_type,
                last_offset(v),
                depth,
            ) {
                Err(e) => Err(e),
                Ok((values, j)) => Ok(
                    (
                        Column::Mapping {
                            offsets: v,
                            keys: Box::new(keys),
                            values: Box::new(values),
                        },
                        used + k + j,
                    ),
                ),
            },
        },
    }
}

/// The fields of a tuple, one column after the other.
pub open spec fn decoded_fields(s: Seq<u8>, types: Seq<Type>, n: nat, depth: nat) -> Result<
    (Seq<Column>, nat),
    DecodeError,
>
    decreases 34 - depth, 1 + types.len(),
{
    if types.len() == 0 {
        Ok((Seq::empty(), 0))
    } else {
        match decoded_fields(s, types.drop_last(), n, depth) {
            Err(e) => Err(e),
            Ok((fields, used)) => match decoded(s.skip(used as int), types.last(), n, depth) {
                Err(e) => Err(e),
                Ok((field, k)) => Ok((fields.push(field), used + k)),
            },
        }
    }
}

/// How many of the values are of the alternative `i`.
pub open spec fn count_of(d: Seq<u8>, i: int) -> nat
    decreases d.len(),
{
    if d.len() == 0 {
        0
    } else {
        count_of(d.drop_last(), i) + (if d.last() == i {
            1nat
        } else {
            0nat
        })
    }
}

/// Each value is of one of `k` alternatives, or is null, which is told by 255.
pub open spec fn known_alternatives(d: Seq<u8>, k: nat) -> bool {
    forall|i: int| 0 <= i < d.len() ==> #[trigger] d[i] == 255 || d[i] < k
}

/// How many bytes the values take, those of one alternative after those of the other. `d` tells
/// of which alternative each row is.
pub open spec fn alternatives_span(s: Seq<u8>, types: Seq<Type>, d: Seq<u8>, depth: nat) -> Result<
    nat,
    DecodeError,
>
    decreases 34 - depth, 1 + types.len(),
{
    if types.len() == 0 {
        Ok(0)
    } else {
        match alternatives_span(s, types.drop_last(), d, depth) {
            Err(e) => Err(e),
            Ok(used) => match decoded(
                s.skip(used as int),
                types.last(),
                count_of(d, types.len() - 1),
                depth,
            ) {
                Err(e) => Err(e),
                Ok((_, k)) => Ok(used + k),
            },
        }
    }
}

/// How many bytes a column of variants takes: a number for the way in which the alternatives are
/// told, which is 0; a byte per row for its alternative; and the values of each alternative.
pub open spec fn variant_span(s: Seq<u8>, types: Seq<Type>, n: nat, depth: nat) -> Result<
    nat,
    DecodeError,
>
    decreases 34 - depth, 2 + types.len(),
{
    if s.len() < 8 {
        Err(truncated())
    } else {
        let mode = wire::le_nat(s.take(8));
        if mode != 0 {
            Err(DecodeError::VariantMode(mode as u64))
        } else if s.len() < 8 + n {
            Err(truncated())
        } else {
            let d = s.subrange(8, (8 + n) as int);
            if types.len() > 255 || !known_alternatives(d, types.len()) {
                Err(DecodeError::VariantAlternative)
            } else {
                match alternatives_span(s.skip((8 + n) as int), types, d, depth) {
                    Err(e) => Err(e),
                    Ok(used) => Ok(8 + n + used),
                }
            }
        }
    }
}

/// One text stands before another in the order of their characters, from position `i` on.
pub open spec fn stands_before(a: Seq<char>, b: Seq<char>, i: int) -> bool
    decreases b.len() - i,
{
    if i >= b.len() {
        false
    } else if i >= a.len() || a[i] < b[i] {
        true
    } else {
        a[i] == b[i] && stands_before(a, b, i + 1)
    }
}

/// The types of a dynamic column: `k` type names. Comes with how many of them stand before the
/// name of the alternative that holds all other values, and how many bytes they take.
pub open spec fn dynamic_types(s: Seq<u8>, k: nat, levels: nat) -> Result<
    (Seq<Type>, nat, nat),
    DecodeError,
>
    decreases k,
{
    if k == 0 {
        Ok((Seq::empty(), 0, 0))
    } else {
        match dynamic_types(s, (k - 1) as nat, levels) {
            Err(e) => Err(e),
            Ok((types, before, used)) => match wire::utf8_string(s.skip(used as int)) {
                Err(e) => Err(DecodeError::Wire(e)),
                Ok((name, len)) => match column_type::type_named(name, levels) {
                    None => Err(DecodeError::DynamicType),
                    Some(t) => Ok(
                        (
                            types.push(t),
                            before + (if stands_before(name, "SharedVariant"@, 0) {
                                1nat
                            } else {
                                0nat
                            }),
                            used + len,
                        ),
                    ),
                },
            },
        }
    }
}

/// The alternatives that a dynamic column tells, with how many bytes that takes: a version; in
/// version 1 the most types that there may be; how many types there are; and their names. All
/// other values are kept as strings, in an alternative whose place is that of its name.
pub open spec fn dynamic_head(s: Seq<u8>, levels: nat) -> Result<(Seq<Type>, nat), DecodeError> {
    if s.len() < 8 {
        Err(truncated())
    } else {
        let version = wire::le_nat(s.take(8));
        if version != 1 && version != 2 {
            Err(DecodeError::DynamicVersion(version as u64))
        } else {
            match (if version == 1 {
                wire::varuint(s.skip(8))
            } else {
                Ok((0, 0))
            }) {
                Err(e) => Err(DecodeError::Wire(e)),
                Ok((_, a)) => match wire::varuint(s.skip((8 + a) as int)) {
                    Err(e) => Err(DecodeError::Wire(e)),
                    Ok((k, b)) => match dynamic_types(s.skip((8 + a + b) as int), k, levels) {
                        Err(e) => Err(e),
                        Ok((types, before, c)) => Ok(
                            (
                                types.insert(before as int, Type::Plain(ColumnType::String)),
                                8 + a + b + c,
                            ),
                        ),
                    },
                },
            }
        }
    }
}

/// How many bytes a dynamic column takes: its alternatives, then a column of variants.
pub open spec fn dynamic_span(s: Seq<u8>, n: nat, depth: nat) -> Result<nat, DecodeError>
    decreases 34 - depth, 0x1_0000_0000_0000_0000nat,
{
    match dynamic_head(s, (33 - depth) as nat) {
        Err(e) => Err(e),
        Ok((types, head)) => if types.len() > 255 {
            Err(DecodeError::VariantAlternative)
        } else {
            match variant_span(s.skip(head as int), types, n, depth) {
                Err(e) => Err(e),
                Ok(used) => Ok(head + used),
            }
        },
    }
}

/// The unsigned numbers that index a dictionary, by the code for their width.
pub open spec fn index_layout(code: nat) -> (ScalarKind, nat) {
    if code == 0 {
        (ScalarKind::UInt8, 1)
    } else if code == 1 {
        (ScalarKind::UInt16, 2)
    } else if code == 2 {
        (ScalarKind::UInt32, 4)
    } else {
        (ScalarKind::UInt64, 8)
    }
}

/// A bit of a number is set.
pub open spec fn bit_set(n: nat, bit: nat) -> bool {
    (n / bit) % 2 == 1
}

/// The type of the dictionary, and whether index 0 of it stands for null.
pub open spec fn dictionary_type(inner: Type) -> (Type, bool) {
    match inner {
        Type::Nullable(t) => (*t, true),
        t => (t, false),
    }
}

/// A column with a dictionary: a version, flags, the number of dictionary entries and
/// the entries, the number of indices and the indices. Bits 0 and 1 of the flags are the
/// code for the width of an index, bit 8 announces a global dictionary, bit 9 the entries.
pub open spec fn decoded_low_cardinality(s: Seq<u8>, inner: Type, n: nat, depth: nat) -> Result<
    (Column, nat),
    DecodeError,
>
    decreases 34 - depth, 1nat,
{
    if n > usize::MAX {
        Err(DecodeError::RowCount(n as u64))
    } else if s.len() < 16 {
        Err(truncated())
    } else {
        let flags = wire::le_nat(s.subrange(8, 16));
        let (dict_type, is_nullable_inner) = dictionary_type(inner);
        if bit_set(flags, 256) {
            Err(DecodeError::GlobalDictionary)
        } else if !bit_set(flags, 512) {
            Err(DecodeError::NoDictionary)
        } else if s.len() < 24 {
            Err(truncated())
        } else {
            match decoded(s.skip(24), dict_type, wire::le_nat(s.subrange(16, 24)), depth) {
                Err(e) => Err(e),
                Ok((dict, used)) => if s.len() < 32 + used {
                    Err(truncated())
                } else {
                    let count = wire::le_nat(s.subrange((24 + used) as int, (32 + used) as int));
                    let (kind, width) = index_layout(flags % 4);
                    if count != n {
                        Err(DecodeError::IndexCount { indices: count as u64, rows: n as u64 })
                    } else {
                        match scalars(s.skip((32 + used) as int), n, width, false) {
                            Err(e) => Err(e),
                            Ok((v, k)) => Ok(
                                (
                                    Column::LowCardinality {
                                        dict: Box::new(dict),
                                        indices: Box::new(Column::Scalars(kind, v)),
                                        is_nullable_inner,
                                    },
                                    32 + used + k,
                                ),
                            ),
                        }
                    }
                },
            }
        }
    }
}

/// Reads `n` little-endian numbers at `pos`.
fn read_le_column<T: LeScalar>(bytes: &[u8], pos: usize, n: usize) -> (r: Result<
    (Vec<T>, usize),
    DecodeError,
>)
    requires
        pos <= bytes@.len(),
    ensures
        (match r {
            Ok((v, next)) => pos <= next <= bytes@.len() && scalars(
                bytes@.skip(pos as int),
                n as nat,
                T::spec_width(),
                T::spec_signed(),
            ) == Ok::<(Seq<int>, nat), DecodeError>((numbers(v@), (next - pos) as nat)),
            Err(e) => scalars(
                bytes@.skip(pos as int),
                n as nat,
                T::spec_width(),
                T::spec_signed(),
            ) == Err::<(Seq<int>, nat), DecodeError>(e),
        }),
{
    let width: usize = T::width();
    let total: usize = match n.checked_mul(width) {
        Some(total) => total,
        None => {
            return Err(DecodeError::NumericOverflow);
        },
    };
    if total > bytes.len() - pos {
        return Err(DecodeError::Wire(WireError::Truncated));
    }
    let ghost s = bytes@.skip(pos as int);
    let len: usize = bytes.len();
    let mut v: Vec<T> = Vec::new();
    let mut i: usize = 0;
    let mut at: usize = pos;
    while i < n
        invariant
            i <= n,
            i == v@.len(),
            width == T::spec_width(),
            width > 0,
            total == n * width,
            at == pos + i * width,
            pos + total <= bytes@.len() == len,
            s == bytes@.skip(pos as int),
            forall|j: int| 0 <= j < i ==> (#[trigger] v@[j]).value() == value_at(
                s,
                j,
                T::spec_width(),
                T::spec_signed(),
            ),
        decreases n - i,
    {
        proof {
            assert((i + 1) * width == i * width + width) by (nonlinear_arith);
            assert((i + 1) * width <= n * width) by (nonlinear_arith)
                requires
                    i + 1 <= n,
            ;
            assert(s.subrange(i * width, i * width + width) =~= bytes@.subrange(
                at as int,
                at + width,
            ));
        }
        v.push(T::from_le_slice(bytes, at));
        at += width;
        i += 1;
    }
    proof {
        assert(numbers(v@) =~= Seq::new(
            n as nat,
            |i: int| value_at(s, i, T::spec_width(), T::spec_signed()),
        ));
    }
    Ok((v, at))
}

fn array16(bytes: &[u8], pos: usize) -> (out: [u8; 16])
    requires
        pos + 16 <= bytes@.len(),
    ensures
        out@ == bytes@.subrange(pos as int, pos + 16),
{
    let mut out: [u8; 16] = [0u8; 16];
    let len: usize = bytes.len();
    let mut i: usize = 0;
    while i < 16
        invariant
            i <= 16,
            pos + 16 <= bytes@.len() == len,
            forall|j: int| 0 <= j < i ==> out@[j] == bytes@[pos + j],
        decreases 16 - i,
    {
        out[i] = bytes[pos + i];
        i += 1;
    }
    proof {
        assert(out@ =~= bytes@.subrange(pos as int, pos + 16));
    }
    out
}

fn array32(bytes: &[u8], pos: usize) -> (out: [u8; 32])
    requires
        pos + 32 <= bytes@.len(),
    ensures
        out@ == bytes@.subrange(pos as int, pos + 32),
{
    let mut out: [u8; 32] = [0u8; 32];
    let len: usize = bytes.len();
    let mut i: usize = 0;
    while i < 32
        invariant
            i <= 32,
            pos + 32 <= bytes@.len() == len,
            forall|j: int| 0 <= j < i ==> out@[j] == bytes@[pos + j],
        decreases 32 - i,
    {
        out[i] = bytes[pos + i];
        i += 1;
    }
    proof {
        assert(out@ =~= bytes@.subrange(pos as int, pos + 32));
    }
    out
}

/// Reads `n` 16-byte values at `pos`.
fn read_u128_blobs(bytes: &[u8], pos: usize, n: usize) -> (r: Result<
    (Vec<[u8; 16]>, usize),
    DecodeError,
>)
    requires
        pos <= bytes@.len(),
    ensures
        (match r {
            Ok((v, next)) => pos <= next <= bytes@.len() && blobs(
                bytes@.skip(pos as int),
                n as nat,
                16,
            ) == Ok::<(Seq<Seq<u8>>, nat), DecodeError>((blobs_of(v@), (next - pos) as nat)),
            Err(e) => blobs(bytes@.skip(pos as int), n as nat, 16) == Err::<
                (Seq<Seq<u8>>, nat),
                DecodeError,
            >(e),
        }),
{
    let ghost s = bytes@.skip(pos as int);
    let len: usize = bytes.len();
    if n > (len - pos) / 16 {
        return Err(DecodeError::Wire(WireError::Truncated));
    }
    let mut v: Vec<[u8; 16]> = Vec::new();
    let mut i: usize = 0;
    while i < n
        invariant
            i <= n,
            i == v@.len(),
            pos + 16 * n <= bytes@.len() == len,
            s == bytes@.skip(pos as int),
            forall|j: int| 0 <= j < i ==> (#[trigger] v@[j])@ == s.subrange(j * 16, j * 16 + 16),
        decreases n - i,
    {
        proof {
            assert(s.subrange(i * 16, i * 16 + 16) =~= bytes@.subrange(
                pos + 16 * i,
                pos + 16 * i + 16,
            ));
        }
        v.push(array16(bytes, pos + 16 * i));
        i += 1;
    }
    proof {
        assert(blobs_of(v@) =~= Seq::new(n as nat, |i: int| s.subrange(i * 16, i * 16 + 16)));
    }
    Ok((v, pos + 16 * n))
}

/// Reads `n` 32-byte values at `pos`.
fn read_u256_column(bytes: &[u8], pos: usize, n: usize) -> (r: Result<
    (Vec<[u8; 32]>, usize),
    DecodeError,
>)
    requires
        pos <= bytes@.len(),
    ensures
        (match r {
            Ok((v, next)) => pos <= next <= bytes@.len() && n * 32 <= usize::MAX && blobs(
                bytes@.skip(pos as int),
                n as nat,
                32,
            ) == Ok::<(Seq<Seq<u8>>, nat), DecodeError>((blobs_of(v@), (next - pos) as nat)),
            Err(e) => e == if n * 32 > usize::MAX {
                DecodeError::WideOverflow
            } else {
                truncated()
            } && (n * 32 > usize::MAX || blobs(bytes@.skip(pos as int), n as nat, 32) == Err::<
                (Seq<Seq<u8>>, nat),
                DecodeError,
            >(e)),
        }),
{
    let ghost s = bytes@.skip(pos as int);
    let len: usize = bytes.len();
    let total: usize = match n.checked_mul(32) {
        Some(total) => total,
        None => {
            return Err(DecodeError::WideOverflow);
        },
    };
    if total > len - pos {
        return Err(DecodeError::Wire(WireError::Truncated));
    }
    let mut v: Vec<[u8; 32]> = Vec::new();
    let mut i: usize = 0;
    while i < n
        invariant
            i <= n,
            i == v@.len(),
            pos + 32 * n <= bytes@.len() == len,
            s == bytes@.skip(pos as int),
            forall|j: int| 0 <= j < i ==> (#[trigger] v@[j])@ == s.subrange(j * 32, j * 32 + 32),
        decreases n - i,
    {
        proof {
            assert(s.subrange(i * 32, i * 32 + 32) =~= bytes@.subrange(
                pos + 32 * i,
                pos + 32 * i + 32,
            ));
        }
        v.push(array32(bytes, pos + 32 * i));
        i += 1;
    }
    proof {
        assert(blobs_of(v@) =~= Seq::new(n as nat, |i: int| s.subrange(i * 32, i * 32 + 32)));
    }
    Ok((v, pos + total))
}

/// Reads the next `n` bytes at `pos`.
fn read_raw(bytes: &[u8], pos: usize, n: usize) -> (r: Result<(Vec<u8>, usize), DecodeError>)
    requires
        pos <= bytes@.len(),
    ensures
        (match r {
            Ok((v, next)) => pos <= next <= bytes@.len() && raw(bytes@.skip(pos as int), n as nat)
                == Ok::<(Seq<u8>, nat), DecodeError>((v@, (next - pos) as nat)),
            Err(e) => raw(bytes@.skip(pos as int), n as nat) == Err::<(Seq<u8>, nat), DecodeError>(
                e,
            ),
        }),
{
    if n > bytes.len() - pos {
        return Err(DecodeError::Wire(WireError::Truncated));
    }
    let v = wire::slice_between(bytes, pos, pos + n);
    proof {
        assert(v@ =~= bytes@.skip(pos as int).take(n as int));
    }
    Ok((v, pos + n))
}

proof fn lemma_strings_fail(s: Seq<u8>, k: nat, n: nat)
    requires
        k <= n,
        strings(s, k) is Err,
    ensures
        strings(s, n) == strings(s, k),
    decreases n,
{
    if k < n {
        lemma_strings_fail(s, k, (n - 1) as nat);
    }
}

/// Reads `n` strings at `pos`.
fn read_strings(bytes: &[u8], pos: usize, n: usize) -> (r: Result<
    (Vec<Vec<u8>>, usize),
    DecodeError,
>)
    requires
        pos <= bytes@.len(),
    ensures
        (match r {
            Ok((v, next)) => pos <= next <= bytes@.len() && strings(
                bytes@.skip(pos as int),
                n as nat,
            ) == Ok::<(Seq<Seq<u8>>, nat), DecodeError>((byte_strings(v@), (next - pos) as nat)),
            Err(e) => strings(bytes@.skip(pos as int), n as nat) == Err::<
                (Seq<Seq<u8>>, nat),
                DecodeError,
            >(e),
        }),
{
    let ghost s = bytes@.skip(pos as int);
    let mut v: Vec<Vec<u8>> = Vec::new();
    let mut at: usize = pos;
    let mut i: usize = 0;
    proof {
        assert(byte_strings(v@) =~= Seq::empty());
    }
    while i < n
        invariant
            i <= n,
            pos <= at <= bytes@.len(),
            s == bytes@.skip(pos as int),
            strings(s, i as nat) == Ok::<(Seq<Seq<u8>>, nat), DecodeError>(
                (byte_strings(v@), (at - pos) as nat),
            ),
        decreases n - i,
    {
        proof {
            assert(s.skip(at - pos) =~= bytes@.skip(at as int));
        }
        match read_string(bytes, at) {
            Ok((b, next)) => {
                let ghost before = v@;
                v.push(b);
                proof {
                    assert(byte_strings(v@) =~= byte_strings(before).push(b@));
                }
                at = next;
            },
            Err(e) => {
                proof {
                    lemma_strings_fail(s, (i + 1) as nat, n as nat);
                }
                return Err(DecodeError::Wire(e));
            },
        }
        i += 1;
    }
    Ok((v, at))
}

proof fn lemma_offsets_fail(s: Seq<u8>, k: nat, n: nat, bad: DecodeError)
    requires
        k <= n,
        offsets(s, k, bad) is Err,
    ensures
        offsets(s, n, bad) == offsets(s, k, bad),
    decreases n,
{
    if k < n {
        lemma_offsets_fail(s, k, (n - 1) as nat, bad);
    }
}

/// Reads `n` end offsets at `pos`, those of an array or of a map.
fn read_offsets(bytes: &[u8], pos: usize, n: usize, map: bool) -> (r: Result<
    (Vec<u64>, usize),
    DecodeError,
>)
    requires
        pos <= bytes@.len(),
    ensures
        ({
            let bad = if map {
                DecodeError::MapOffsets
            } else {
                DecodeError::ArrayOffsets
            };
            match r {
                Ok((v, next)) => pos <= next <= bytes@.len() && offsets(
                    bytes@.skip(pos as int),
                    n as nat,
                    bad,
                ) == Ok::<(Seq<u64>, nat), DecodeError>((v@, (next - pos) as nat)),
                Err(e) => offsets(bytes@.skip(pos as int), n as nat, bad) == Err::<
                    (Seq<u64>, nat),
                    DecodeError,
                >(e),
            }
        }),
{
    let ghost bad = if map {
        DecodeError::MapOffsets
    } else {
        DecodeError::ArrayOffsets
    };
    let ghost s = bytes@.skip(pos as int);
    let mut v: Vec<u64> = Vec::new();
    let mut prev: u64 = 0;
    let mut at: usize = pos;
    let mut i: usize = 0;
    while i < n
        invariant
            i <= n,
            pos <= at <= bytes@.len(),
            s == bytes@.skip(pos as int),
            bad == (if map {
                DecodeError::MapOffsets
            } else {
                DecodeError::ArrayOffsets
            }),
            prev == last_offset(v@),
            offsets(s, i as nat, bad) == Ok::<(Seq<u64>, nat), DecodeError>(
                (v@, (at - pos) as nat),
            ),
        decreases n - i,
    {
        if bytes.len() - at < 8 {
            proof {
                lemma_offsets_fail(s, (i + 1) as nat, n as nat, bad);
            }
            return Err(DecodeError::Wire(WireError::Truncated));
        }
        proof {
            assert(s.subrange(at - pos, at - pos + 8) =~= bytes@.subrange(at as int, at + 8));
        }
        let end: u64 = u64::from_le_slice(bytes, at);
        if end < prev {
            proof {
                lemma_offsets_fail(s, (i + 1) as nat, n as nat, bad);
            }
            return Err(
                if map {
                    DecodeError::MapOffsets
                } else {
                    DecodeError::ArrayOffsets
                },
            );
        }
        prev = end;
        v.push(end);
        at += 8;
        i += 1;
    }
    Ok((v, at))
}

/// Where the last row ends, or zero where there is none.
fn final_offset(v: &Vec<u64>) -> (r: u64)
    ensures
        r == last_offset(v@),
{
    if v.len() == 0 {
        0
    } else {
        v[v.len() - 1]
    }
}

/// Steps over `n` values of one width in `levels` nested arrays.
fn skip_nested(bytes: &[u8], pos: usize, n: u64, width: usize, levels: usize) -> (r: Result<
    usize,
    DecodeError,
>)
    requires
        pos <= bytes@.len(),
    ensures
        (match r {
            Ok(next) => pos <= next <= bytes@.len() && nested_span(
                bytes@.skip(pos as int),
                n as nat,
                width as nat,
                levels as nat,
            ) == Ok::<nat, DecodeError>((next - pos) as nat),
            Err(e) => nested_span(
                bytes@.skip(pos as int),
                n as nat,
                width as nat,
                levels as nat,
            ) == Err::<nat, DecodeError>(e),
        }),
    decreases levels,
{
    if n > usize::MAX as u64 {
        return Err(DecodeError::RowCount(n));
    }
    let rows: usize = n as usize;
    if levels == 0 {
        return match rows.checked_mul(width) {
            None => Err(DecodeError::NumericOverflow),
            Some(total) => if total > bytes.len() - pos {
                Err(DecodeError::Wire(WireError::Truncated))
            } else {
                Ok(pos + total)
            },
        };
    }
    match read_offsets(bytes, pos, rows, false) {
        Err(e) => Err(e),
        Ok((v, at)) => {
            proof {
                assert(bytes@.skip(pos as int).skip(at - pos) =~= bytes@.skip(at as int));
            }
            skip_nested(bytes, at, final_offset(&v), width, levels - 1)
        },
    }
}

/// The name and layout of a type that is known but not decoded.
fn layout_of_opaque(t: &ColumnType) -> (r: Option<(String, Opaque)>)
    ensures
        (match r {
            Some((name, layout)) => opaque_layout(t.model()) == Some((name@, layout)),
            None => opaque_layout(t.model()) is None,
        }),
{
    match t {
        ColumnType::Json(name) => Some((name.clone(), Opaque::Strings)),
        ColumnType::BFloat16 => Some(("BFloat16".to_owned(), Opaque::Fixed { width: 2, levels: 0 })),
        ColumnType::Time => Some(("Time".to_owned(), Opaque::Fixed { width: 4, levels: 0 })),
        ColumnType::Time64 { precision } => {
            let mut name = "Time64(".to_owned();
            push_decimal(&mut name, *precision as u64);
            name.push_str(")");
            Some((name, Opaque::Fixed { width: 8, levels: 0 }))
        },
        ColumnType::Point => Some(("Point".to_owned(), Opaque::Fixed { width: 16, levels: 0 })),
        ColumnType::Ring => Some(("Ring".to_owned(), Opaque::Fixed { width: 16, levels: 1 })),
        ColumnType::LineString => Some(
            ("LineString".to_owned(), Opaque::Fixed { width: 16, levels: 1 }),
        ),
        ColumnType::MultiLineString => Some(
            ("MultiLineString".to_owned(), Opaque::Fixed { width: 16, levels: 2 }),
        ),
        ColumnType::Polygon => Some(("Polygon".to_owned(), Opaque::Fixed { width: 16, levels: 2 })),
        ColumnType::MultiPolygon => Some(
            ("MultiPolygon".to_owned(), Opaque::Fixed { width: 16, levels: 3 }),
        ),
        _ => None,
    }
}

/// Steps over `n` values of a type that is known but not decoded.
fn skip_opaque(bytes: &[u8], pos: usize, n: usize, layout: &Opaque) -> (r: Result<
    usize,
    DecodeError,
>)
    requires
        pos <= bytes@.len(),
    ensures
        (match r {
            Ok(next) => pos <= next <= bytes@.len() && opaque_span(
                bytes@.skip(pos as int),
                n as nat,
                *layout,
            ) == Ok::<nat, DecodeError>((next - pos) as nat),
            Err(e) => opaque_span(bytes@.skip(pos as int), n as nat, *layout) == Err::<
                nat,
                DecodeError,
            >(e),
        }),
{
    match layout {
        Opaque::Strings => match read_strings(bytes, pos, n) {
            Ok((_, next)) => Ok(next),
            Err(e) => Err(e),
        },
        Opaque::Fixed { width, levels } => skip_nested(bytes, pos, n as u64, *width, *levels),
    }
}

/// The contents and the length of what was decoded at `pos`.
pub open spec fn outcome(r: Result<(DecodedColumn, usize), DecodeError>, pos: int) -> Result<
    (Column, nat),
    DecodeError,
> {
    match r {
        Ok((c, next)) => Ok((c.model(), (next - pos) as nat)),
        Err(e) => Err(e),
    }
}

/// Decodes a column of numbers, where the type is one of those.
fn decode_scalars(bytes: &[u8], pos: usize, col_type: &ColumnType, n: usize) -> (r: Option<
    Result<(DecodedColumn, usize), DecodeError>,
>)
    requires
        pos <= bytes@.len(),
    ensures
        r is Some <==> scalar_layout(col_type.model()) is Some,
        r matches Some(x) ==> outcome(x, pos as int) == scalar_column(
            bytes@.skip(pos as int),
            col_type.model(),
            n as nat,
        ),
        r matches Some(Ok((_, next))) ==> pos <= next <= bytes@.len(),
{
    let r = match col_type {
        ColumnType::UInt8 | ColumnType::Enum8 => match read_le_column::<u8>(bytes, pos, n) {
            Ok((v, next)) => Ok((DecodedColumn::UInt8(v), next)),
            Err(e) => Err(e),
        },
        ColumnType::Int8 => match read_le_column::<i8>(bytes, pos, n) {
            Ok((v, next)) => Ok((DecodedColumn::Int8(v), next)),
            Err(e) => Err(e),
        },
        ColumnType::UInt16 | ColumnType::Enum16 => match read_le_column::<u16>(bytes, pos, n) {
            Ok((v, next)) => Ok((DecodedColumn::UInt16(v), next)),
            Err(e) => Err(e),
        },
        ColumnType::Int16 => match read_le_column::<i16>(bytes, pos, n) {
            Ok((v, next)) => Ok((DecodedColumn::Int16(v), next)),
            Err(e) => Err(e),
        },
        ColumnType::UInt32 => match read_le_column::<u32>(bytes, pos, n) {
            Ok((v, next)) => Ok((DecodedColumn::UInt32(v), next)),
            Err(e) => Err(e),
        },
        ColumnType::Int32 => match read_le_column::<i32>(bytes, pos, n) {
            Ok((v, next)) => Ok((DecodedColumn::Int32(v), next)),
            Err(e) => Err(e),
        },
        ColumnType::UInt64 => match read_le_column::<u64>(bytes, pos, n) {
            Ok((v, next)) => Ok((DecodedColumn::UInt64(v), next)),
            Err(e) => Err(e),
        },
        ColumnType::Int64 => match read_le_column::<i64>(bytes, pos, n) {
            Ok((v, next)) => Ok((DecodedColumn::Int64(v), next)),
            Err(e) => Err(e),
        },
        ColumnType::Int128 => match read_le_column::<i128>(bytes, pos, n) {
            Ok((v, next)) => Ok((DecodedColumn::Int128(v), next)),
            Err(e) => Err(e),
        },
        ColumnType::UInt128 => match read_le_column::<u128>(bytes, pos, n) {
            Ok((v, next)) => Ok((DecodedColumn::UInt128(v), next)),
            Err(e) => Err(e),
        },
        ColumnType::Float32 => match read_le_column::<u32>(bytes, pos, n) {
            Ok((v, next)) => Ok((DecodedColumn::Float32(v), next)),
            Err(e) => Err(e),
        },
        ColumnType::Float64 => match read_le_column::<u64>(bytes, pos, n) {
            Ok((v, next)) => Ok((DecodedColumn::Float64(v), next)),
            Err(e) => Err(e),
        },
        ColumnType::Decimal32 { precision, scale } => match read_le_column::<i32>(bytes, pos, n) {
            Ok((values, next)) => Ok(
                (DecodedColumn::Decimal32 { precision: *precision, scale: *scale, values }, next),
            ),
            Err(e) => Err(e),
        },
        ColumnType::Decimal64 { precision, scale } => match read_le_column::<i64>(bytes, pos, n) {
            Ok((values, next)) => Ok(
                (DecodedColumn::Decimal64 { precision: *precision, scale: *scale, values }, next),
            ),
            Err(e) => Err(e),
        },
        ColumnType::Decimal128 { precision, scale } => match read_le_column::<i128>(
            bytes,
            pos,
            n,
        ) {
            Ok((values, next)) => Ok(
                (DecodedColumn::Decimal128 { precision: *precision, scale: *scale, values }, next),
            ),
            Err(e) => Err(e),
        },
        ColumnType::Date => match read_le_column::<u16>(bytes, pos, n) {
            Ok((v, next)) => Ok((DecodedColumn::Date(v), next)),
            Err(e) => Err(e),
        },
        ColumnType::Date32 => match read_le_column::<i32>(bytes, pos, n) {
            Ok((v, next)) => Ok((DecodedColumn::Date32(v), next)),
            Err(e) => Err(e),
        },
        ColumnType::DateTime => match read_le_column::<u32>(bytes, pos, n) {
            Ok((v, next)) => Ok((DecodedColumn::DateTime(v), next)),
            Err(e) => Err(e),
        },
        ColumnType::DateTime64 { precision, timezone } => {
            let timezone = match timezone {
                Some(tz) => Some(tz.clone()),
                None => None,
            };
            match read_le_column::<i64>(bytes, pos, n) {
                Ok((values, next)) => Ok(
                    (DecodedColumn::DateTime64 { precision: *precision, timezone, values }, next),
                ),
                Err(e) => Err(e),
            }
        },
        ColumnType::IPv4 => match read_le_column::<u32>(bytes, pos, n) {
            Ok((v, next)) => Ok((DecodedColumn::Ipv4(v), next)),
            Err(e) => Err(e),
        },
        _ => {
            return None;
        },
    };
    Some(r)
}

/// Decodes a column of fixed-width byte strings, where the type is one of those.
fn decode_wides(bytes: &[u8], pos: usize, col_type: &ColumnType, n: usize) -> (r: Option<
    Result<(DecodedColumn, usize), DecodeError>,
>)
    requires
        pos <= bytes@.len(),
    ensures
        r is Some <==> wide_layout(col_type.model()) is Some,
        r matches Some(x) ==> outcome(x, pos as int) == wide_column(
            bytes@.skip(pos as int),
            col_type.model(),
            n as nat,
        ),
        r matches Some(Ok((_, next))) ==> pos <= next <= bytes@.len(),
{
    let r = match col_type {
        ColumnType::Int256 => match read_u256_column(bytes, pos, n) {
            Ok((v, next)) => Ok((DecodedColumn::Int256(v), next)),
            Err(e) => Err(e),
        },
        ColumnType::UInt256 => match read_u256_column(bytes, pos, n) {
            Ok((v, next)) => Ok((DecodedColumn::UInt256(v), next)),
            Err(e) => Err(e),
        },
        ColumnType::Decimal256 { precision, scale } => match read_u256_column(bytes, pos, n) {
            Ok((values, next)) => Ok(
                (DecodedColumn::Decimal256 { precision: *precision, scale: *scale, values }, next),
            ),
            Err(e) => Err(e),
        },
        ColumnType::Uuid => match read_u128_blobs(bytes, pos, n) {
            Ok((v, next)) => Ok((DecodedColumn::Uuid(v), next)),
            Err(e) => Err(e),
        },
        ColumnType::IPv6 => match read_u128_blobs(bytes, pos, n) {
            Ok((v, next)) => Ok((DecodedColumn::Ipv6(v), next)),
            Err(e) => Err(e),
        },
        _ => {
            return None;
        },
    };
    Some(r)
}

/// Decodes the values of one column at `pos`; gives it with the position behind it.
///
/// `depth` counts the composite types around the column, which bounds the recursion.
pub fn decode_column(
    bytes: &[u8],
    pos: usize,
    col_type: &ColumnType,
    num_rows: u64,
    depth: usize,
) -> (r: Result<(DecodedColumn, usize), DecodeError>)
    requires
        pos <= bytes@.len(),
    ensures
        outcome(r, pos as int) == decoded(
            bytes@.skip(pos as int),
            col_type.model(),
            num_rows as nat,
            depth as nat,
        ),
        r matches Ok((_, next)) ==> pos <= next <= bytes@.len(),
    decreases 34 - depth, 0nat,
{
    if depth > MAX_DECODE_DEPTH {
        return Err(DecodeError::TooDeep);
    }
    if num_rows > usize::MAX as u64 {
        return Err(DecodeError::RowCount(num_rows));
    }
    let n: usize = num_rows as usize;
    match layout_of_opaque(col_type) {
        Some((name, layout)) => {
            return match skip_opaque(bytes, pos, n, &layout) {
                Ok(next) => Ok((DecodedColumn::Unsupported(name), next)),
                Err(e) => Err(e),
            };
        },
        None => {},
    }
    let ghost s = bytes@.skip(pos as int);
    match decode_scalars(bytes, pos, col_type, n) {
        Some(r) => {
            return r;
        },
        None => {},
    }
    match decode_wides(bytes, pos, col_type, n) {
        Some(r) => {
            return r;
        },
        None => {},
    }
    match col_type {
        ColumnType::FixedString(width) => {
            let total: usize = match width.checked_mul(n) {
                Some(total) => total,
                None => {
                    return Err(DecodeError::FixedStringOverflow);
                },
            };
            match read_raw(bytes, pos, total) {
                Ok((v, next)) => Ok((DecodedColumn::FixedString { width: *width, bytes: v }, next)),
                Err(e) => Err(e),
            }
        },
        ColumnType::Nullable(inner) => decode_nullable(bytes, pos, inner, num_rows, depth + 1),
        ColumnType::Array(inner) => decode_array(bytes, pos, inner, num_rows, depth + 1),
        ColumnType::Tuple(fields) => {
            proof {
                column_type::lemma_tuple_model(*fields);
            }
            match decode_fields(bytes, pos, fields, num_rows, depth + 1) {
                Ok((v, next)) => {
                    proof {
                        assert(DecodedColumn::Tuple(v).model()->Tuple_0 =~= columns_of(v@));
                    }
                    Ok((DecodedColumn::Tuple(v), next))
                },
                Err(e) => Err(e),
            }
        },
        ColumnType::Variant { name, types } => {
            proof {
                column_type::lemma_variant_model(*name, *types);
            }
            match skip_variant(bytes, pos, types, num_rows, depth + 1) {
                Ok(next) => Ok((DecodedColumn::Unsupported(name.clone()), next)),
                Err(e) => Err(e),
            }
        },
        ColumnType::Dynamic(name) => match skip_dynamic(bytes, pos, num_rows, depth + 1) {
            Ok(next) => Ok((DecodedColumn::Unsupported(name.clone()), next)),
            Err(e) => Err(e),
        },
        ColumnType::Mapping(key_type, value_type) => decode_mapping(
            bytes,
            pos,
            key_type,
            value_type,
            num_rows,
            depth + 1,
        ),
        ColumnType::LowCardinality(inner) => decode_low_cardinality(
            bytes,
            pos,
            inner,
            num_rows,
            depth + 1,
        ),
        ColumnType::SimpleAggregateFunction(inner) => decode_column(
            bytes,
            pos,
            inner,
            num_rows,
            depth + 1,
        ),
        _ => match read_strings(bytes, pos, n) {
            Ok((v, next)) => Ok((DecodedColumn::String(v), next)),
            Err(e) => Err(e),
        },
    }
}

/// Decodes a column of nullable values at `pos`.
fn decode_nullable(
    bytes: &[u8],
    pos: usize,
    inner: &ColumnType,
    num_rows: u64,
    depth: usize,
) -> (r: Result<(DecodedColumn, usize), DecodeError>)
    requires
        pos <= bytes@.len(),
        depth <= 33,
        num_rows <= usize::MAX,
    ensures
        outcome(r, pos as int) == decoded_nullable(
            bytes@.skip(pos as int),
            inner.model(),
            num_rows as nat,
            depth as nat,
        ),
        r matches Ok((_, next)) ==> pos <= next <= bytes@.len(),
    decreases 34 - depth, 1nat,
{
    let n: usize = num_rows as usize;
    let ghost s = bytes@.skip(pos as int);
    let (mask, at) = match read_raw(bytes, pos, n) {
        Ok(v) => v,
        Err(e) => {
            return Err(e);
        },
    };
    proof {
        assert(s.skip(at - pos) =~= bytes@.skip(at as int));
    }
    match decode_column(bytes, at, inner, num_rows, depth) {
        Ok((child, next)) => Ok((DecodedColumn::Nullable { mask, child: Box::new(child) }, next)),
        Err(e) => Err(e),
    }
}

/// Decodes a column of arrays at `pos`.
fn decode_array(
    bytes: &[u8],
    pos: usize,
    inner: &ColumnType,
    num_rows: u64,
    depth: usize,
) -> (r: Result<(DecodedColumn, usize), DecodeError>)
    requires
        pos <= bytes@.len(),
        depth <= 33,
        num_rows <= usize::MAX,
    ensures
        outcome(r, pos as int) == decoded_array(
            bytes@.skip(pos as int),
            inner.model(),
            num_rows as nat,
            depth as nat,
        ),
        r matches Ok((_, next)) ==> pos <= next <= bytes@.len(),
    decreases 34 - depth, 1nat,
{
    let n: usize = num_rows as usize;
    let ghost s = bytes@.skip(pos as int);
    let (offsets, at) = match read_offsets(bytes, pos, n, false) {
        Ok(v) => v,
        Err(e) => {
            return Err(e);
        },
    };
    proof {
        assert(s.skip(at - pos) =~= bytes@.skip(at as int));
    }
    match decode_column(bytes, at, inner, final_offset(&offsets), depth) {
        Ok((child, next)) => Ok((DecodedColumn::Array { offsets, child: Box::new(child) }, next)),
        Err(e) => Err(e),
    }
}

/// Decodes a column of maps at `pos`.
fn decode_mapping(
    bytes: &[u8],
    pos: usize,
    key_type: &ColumnType,
    value_type: &ColumnType,
    num_rows: u64,
    depth: usize,
) -> (r: Result<(DecodedColumn, usize), DecodeError>)
    requires
        pos <= bytes@.len(),
        depth <= 33,
        num_rows <= usize::MAX,
    ensures
        outcome(r, pos as int) == decoded_mapping(
            bytes@.skip(pos as int),
            key_type.model(),
            value_type.model(),
            num_rows as nat,
            depth as nat,
        ),
        r matches Ok((_, next)) ==> pos <= next <= bytes@.len(),
    decreases 34 - depth, 1nat,
{
    let n: usize = num_rows as usize;
    let ghost s = bytes@.skip(pos as int);
    let (offsets, at) = match read_offsets(bytes, pos, n, true) {
        Ok(v) => v,
        Err(e) => {
            return Err(e);
        },
    };
    let total: u64 = final_offset(&offsets);
    proof {
        assert(s.skip(at - pos) =~= bytes@.skip(at as int));
    }
    let (keys, mid) = match decode_column(bytes, at, key_type, total, depth) {
        Ok(v) => v,
        Err(e) => {
            return Err(e);
        },
    };
    proof {
        assert(s.skip(mid - pos) =~= bytes@.skip(mid as int));
    }
    match decode_column(bytes, mid, value_type, total, depth) {
        Ok((values, next)) => Ok(
            (
                DecodedColumn::Mapping {
                    offsets,
                    keys: Box::new(keys),
                    values: Box::new(values),
                },
                next,
            ),
        ),
        Err(e) => Err(e),
    }
}

proof fn lemma_fields_fail(s: Seq<u8>, types: Seq<Type>, k: int, n: nat, depth: nat)
    requires
        0 <= k <= types.len(),
        decoded_fields(s, types.take(k), n, depth) is Err,
    ensures
        decoded_fields(s, types, n, depth) == decoded_fields(s, types.take(k), n, depth),
    decreases types.len(),
{
    if k == types.len() {
        assert(types.take(k) =~= types);
    } else {
        assert(types.drop_last().take(k) =~= types.take(k));
        lemma_fields_fail(s, types.drop_last(), k, n, depth);
    }
}

/// Decodes the fields of a tuple at `pos`, one column after the other.
fn decode_fields(
    bytes: &[u8],
    pos: usize,
    fields: &Vec<ColumnType>,
    num_rows: u64,
    depth: usize,
) -> (r: Result<(Vec<DecodedColumn>, usize), DecodeError>)
    requires
        pos <= bytes@.len(),
        depth <= 33,
    ensures
        (match r {
            Ok((v, next)) => pos <= next <= bytes@.len() && decoded_fields(
                bytes@.skip(pos as int),
                column_type::models(fields@),
                num_rows as nat,
                depth as nat,
            ) == Ok::<(Seq<Column>, nat), DecodeError>((columns_of(v@), (next - pos) as nat)),
            Err(e) => decoded_fields(
                bytes@.skip(pos as int),
                column_type::models(fields@),
                num_rows as nat,
                depth as nat,
            ) == Err::<(Seq<Column>, nat), DecodeError>(e),
        }),
    decreases 34 - depth, 1nat,
{
    let ghost s = bytes@.skip(pos as int);
    let ghost types = column_type::models(fields@);
    let mut v: Vec<DecodedColumn> = Vec::new();
    let mut at: usize = pos;
    let mut i: usize = 0;
    proof {
        assert(columns_of(v@) =~= Seq::empty());
        assert(types.take(0) =~= Seq::empty());
    }
    while i < fields.len()
        invariant
            i <= fields@.len(),
            depth <= 33,
            pos <= at <= bytes@.len(),
            s == bytes@.skip(pos as int),
            types == column_type::models(fields@),
            decoded_fields(s, types.take(i as int), num_rows as nat, depth as nat) == Ok::<
                (Seq<Column>, nat),
                DecodeError,
            >((columns_of(v@), (at - pos) as nat)),
        decreases fields@.len() - i,
    {
        proof {
            assert(types.take(i + 1).drop_last() =~= types.take(i as int));
            assert(types.take(i + 1).last() == fields@[i as int].model());
            assert(s.skip(at - pos) =~= bytes@.skip(at as int));
        }
        match decode_column(bytes, at, &fields[i], num_rows, depth) {
            Ok((c, next)) => {
                let ghost before = v@;
                v.push(c);
                proof {
                    assert(columns_of(v@) =~= columns_of(before).push(c.model()));
                }
                at = next;
            },
            Err(e) => {
                proof {
                    lemma_fields_fail(s, types, i + 1, num_rows as nat, depth as nat);
                }
                return Err(e);
            },
        }
        i += 1;
    }
    proof {
        assert(types.take(i as int) =~= types);
    }
    Ok((v, at))
}

/// How many of the rows are of the alternative `i`.
fn count_rows_of(d: &[u8], i: usize) -> (r: u64)
    ensures
        r == count_of(d@, i as int),
        r <= d@.len(),
{
    let mut r: u64 = 0;
    let mut j: usize = 0;
    proof {
        assert(d@.take(0) =~= Seq::empty());
    }
    while j < d.len()
        invariant
            j <= d@.len(),
            r == count_of(d@.take(j as int), i as int),
            r <= j,
        decreases d@.len() - j,
    {
        proof {
            assert(d@.take(j + 1).drop_last() =~= d@.take(j as int));
        }
        if d[j] as usize == i {
            r += 1;
        }
        j += 1;
    }
    proof {
        assert(d@.take(j as int) =~= d@);
    }
    r
}

/// Whether each row is of one of `k` alternatives or null.
fn all_alternatives_known(d: &[u8], k: usize) -> (r: bool)
    ensures
        r == known_alternatives(d@, k as nat),
{
    let mut j: usize = 0;
    while j < d.len()
        invariant
            j <= d@.len(),
            forall|i: int| 0 <= i < j ==> #[trigger] d@[i] == 255 || d@[i] < k,
        decreases d@.len() - j,
    {
        if d[j] != 255 && d[j] as usize >= k {
            proof {
                assert(!(d@[j as int] == 255 || d@[j as int] < k));
            }
            return false;
        }
        j += 1;
    }
    true
}

proof fn lemma_alternatives_fail(s: Seq<u8>, types: Seq<Type>, k: int, d: Seq<u8>, depth: nat)
    requires
        0 <= k <= types.len(),
        alternatives_span(s, types.take(k), d, depth) is Err,
    ensures
        alternatives_span(s, types, d, depth) == alternatives_span(s, types.take(k), d, depth),
    decreases types.len(),
{
    if k == types.len() {
        assert(types.take(k) =~= types);
    } else {
        assert(types.drop_last().take(k) =~= types.take(k));
        lemma_alternatives_fail(s, types.drop_last(), k, d, depth);
    }
}

/// Steps over the values of each alternative.
fn skip_alternatives(
    bytes: &[u8],
    pos: usize,
    types: &Vec<ColumnType>,
    d: &[u8],
    depth: usize,
) -> (r: Result<usize, DecodeError>)
    requires
        pos <= bytes@.len(),
        depth <= 33,
    ensures
        (match r {
            Ok(next) => pos <= next <= bytes@.len() && alternatives_span(
                bytes@.skip(pos as int),
                column_type::models(types@),
                d@,
                depth as nat,
            ) == Ok::<nat, DecodeError>((next - pos) as nat),
            Err(e) => alternatives_span(
                bytes@.skip(pos as int),
                column_type::models(types@),
                d@,
                depth as nat,
            ) == Err::<nat, DecodeError>(e),
        }),
    decreases 34 - depth, 1nat,
{
    let ghost s = bytes@.skip(pos as int);
    let ghost all = column_type::models(types@);
    let mut at: usize = pos;
    let mut i: usize = 0;
    proof {
        assert(all.take(0) =~= Seq::empty());
    }
    while i < types.len()
        invariant
            i <= types@.len(),
            depth <= 33,
            pos <= at <= bytes@.len(),
            s == bytes@.skip(pos as int),
            all == column_type::models(types@),
            alternatives_span(s, all.take(i as int), d@, depth as nat) == Ok::<nat, DecodeError>(
                (at - pos) as nat,
            ),
        decreases types@.len() - i,
    {
        proof {
            assert(all.take(i + 1).drop_last() =~= all.take(i as int));
            assert(all.take(i + 1).last() == types@[i as int].model());
            assert(s.skip(at - pos) =~= bytes@.skip(at as int));
        }
        match decode_column(bytes, at, &types[i], count_rows_of(d, i), depth) {
            Ok((_, next)) => {
                at = next;
            },
            Err(e) => {
                proof {
                    lemma_alternatives_fail(s, all, i + 1, d@, depth as nat);
                }
                return Err(e);
            },
        }
        i += 1;
    }
    proof {
        assert(all.take(i as int) =~= all);
    }
    Ok(at)
}

/// Steps over a column of variants at `pos`.
fn skip_variant(
    bytes: &[u8],
    pos: usize,
    types: &Vec<ColumnType>,
    num_rows: u64,
    depth: usize,
) -> (r: Result<usize, DecodeError>)
    requires
        pos <= bytes@.len(),
        depth <= 33,
        num_rows <= usize::MAX,
    ensures
        (match r {
            Ok(next) => pos <= next <= bytes@.len() && variant_span(
                bytes@.skip(pos as int),
                column_type::models(types@),
                num_rows as nat,
                depth as nat,
            ) == Ok::<nat, DecodeError>((next - pos) as nat),
            Err(e) => variant_span(
                bytes@.skip(pos as int),
                column_type::models(types@),
                num_rows as nat,
                depth as nat,
            ) == Err::<nat, DecodeError>(e),
        }),
    decreases 34 - depth, 2nat,
{
    let ghost s = bytes@.skip(pos as int);
    let n: usize = num_rows as usize;
    let len: usize = bytes.len();
    if len - pos < 8 {
        return Err(DecodeError::Wire(WireError::Truncated));
    }
    proof {
        assert(s.take(8) =~= bytes@.subrange(pos as int, pos + 8));
    }
    let mode: u64 = u64::from_le_slice(bytes, pos);
    if mode != 0 {
        return Err(DecodeError::VariantMode(mode));
    }
    let (d, at) = match read_raw(bytes, pos + 8, n) {
        Ok(v) => v,
        Err(e) => {
            return Err(e);
        },
    };
    proof {
        assert(bytes@.skip(pos + 8).take(n as int) =~= s.subrange(8, 8 + n));
        assert(s.skip(8 + n) =~= bytes@.skip(at as int));
    }
    if types.len() > 255 || !all_alternatives_known(d.as_slice(), types.len()) {
        return Err(DecodeError::VariantAlternative);
    }
    skip_alternatives(bytes, at, types, d.as_slice(), depth)
}

/// Whether one text stands before another in the order of their characters.
fn is_before(a: &[char], b: &[char]) -> (r: bool)
    ensures
        r == stands_before(a@, b@, 0),
{
    let mut i: usize = 0;
    while i < b.len()
        invariant
            i <= b@.len(),
            stands_before(a@, b@, 0) == stands_before(a@, b@, i as int),
        decreases b@.len() - i,
    {
        if i >= a.len() || a[i] < b[i] {
            return true;
        }
        if a[i] != b[i] {
            return false;
        }
        i += 1;
    }
    false
}

proof fn lemma_dynamic_types_fail(s: Seq<u8>, k: nat, all: nat, levels: nat)
    requires
        k <= all,
        dynamic_types(s, k, levels) is Err,
    ensures
        dynamic_types(s, all, levels) == dynamic_types(s, k, levels),
    decreases all,
{
    if k < all {
        lemma_dynamic_types_fail(s, k, (all - 1) as nat, levels);
    }
}

/// Reads the type names of a dynamic column.
fn read_dynamic_types(bytes: &[u8], pos: usize, k: u64, levels: usize) -> (r: Result<
    (Vec<ColumnType>, usize, usize),
    DecodeError,
>)
    requires
        pos <= bytes@.len(),
    ensures
        (match r {
            Ok((types, before, next)) => pos <= next <= bytes@.len() && before <= types@.len()
                && dynamic_types(bytes@.skip(pos as int), k as nat, levels as nat) == Ok::<
                (Seq<Type>, nat, nat),
                DecodeError,
            >((column_type::models(types@), before as nat, (next - pos) as nat)),
            Err(e) => dynamic_types(bytes@.skip(pos as int), k as nat, levels as nat) == Err::<
                (Seq<Type>, nat, nat),
                DecodeError,
            >(e),
        }),
{
    let ghost s = bytes@.skip(pos as int);
    let shared = text::chars_of("SharedVariant");
    let mut types: Vec<ColumnType> = Vec::new();
    let mut before: usize = 0;
    let mut at: usize = pos;
    let mut i: u64 = 0;
    proof {
        assert(column_type::models(types@) =~= Seq::empty());
    }
    while i < k
        invariant
            i <= k,
            shared@ == "SharedVariant"@,
            pos <= at <= bytes@.len(),
            s == bytes@.skip(pos as int),
            before <= types@.len(),
            dynamic_types(s, i as nat, levels as nat) == Ok::<(Seq<Type>, nat, nat), DecodeError>(
                (column_type::models(types@), before as nat, (at - pos) as nat),
            ),
        decreases k - i,
    {
        proof {
            assert(s.skip(at - pos) =~= bytes@.skip(at as int));
        }
        let (name, next) = match read_utf8_string(bytes, at) {
            Ok(v) => v,
            Err(e) => {
                proof {
                    lemma_dynamic_types_fail(s, (i + 1) as nat, k as nat, levels as nat);
                }
                return Err(DecodeError::Wire(e));
            },
        };
        match ColumnType::parse_within(name.as_str(), levels) {
            Some(t) => {
                let ghost earlier = types@;
                types.push(t);
                proof {
                    assert(column_type::models(types@) =~= column_type::models(earlier).push(
                        t.model(),
                    ));
                }
            },
            None => {
                proof {
                    lemma_dynamic_types_fail(s, (i + 1) as nat, k as nat, levels as nat);
                }
                return Err(DecodeError::DynamicType);
            },
        }
        let chars = text::chars_of(name.as_str());
        let count: usize = types.len();
        proof {
            assert(before < count);
        }
        if is_before(chars.as_slice(), shared.as_slice()) {
            before += 1;
        }
        at = next;
        i += 1;
    }
    Ok((types, before, at))
}

/// Reads what a dynamic column tells of its alternatives.
fn read_dynamic_head(bytes: &[u8], pos: usize, levels: usize) -> (r: Result<
    (Vec<ColumnType>, usize),
    DecodeError,
>)
    requires
        pos <= bytes@.len(),
    ensures
        (match r {
            Ok((types, next)) => pos <= next <= bytes@.len() && dynamic_head(
                bytes@.skip(pos as int),
                levels as nat,
            ) == Ok::<(Seq<Type>, nat), DecodeError>(
                (column_type::models(types@), (next - pos) as nat),
            ),
            Err(e) => dynamic_head(bytes@.skip(pos as int), levels as nat) == Err::<
                (Seq<Type>, nat),
                DecodeError,
            >(e),
        }),
{
    let ghost s = bytes@.skip(pos as int);
    let len: usize = bytes.len();
    if len - pos < 8 {
        return Err(DecodeError::Wire(WireError::Truncated));
    }
    proof {
        assert(s.take(8) =~= bytes@.subrange(pos as int, pos + 8));
        assert(s.skip(8) =~= bytes@.skip(pos + 8));
    }
    let version: u64 = u64::from_le_slice(bytes, pos);
    if version != 1 && version != 2 {
        return Err(DecodeError::DynamicVersion(version));
    }
    let mut at: usize = pos + 8;
    if version == 1 {
        match read_var_uint(bytes, at) {
            Ok((_, next)) => {
                at = next;
            },
            Err(e) => {
                return Err(DecodeError::Wire(e));
            },
        }
    }
    proof {
        assert(s.skip(at - pos) =~= bytes@.skip(at as int));
    }
    let (k, next) = match read_var_uint(bytes, at) {
        Ok(v) => v,
        Err(e) => {
            return Err(DecodeError::Wire(e));
        },
    };
    proof {
        assert(s.skip(next - pos) =~= bytes@.skip(next as int));
    }
    match read_dynamic_types(bytes, next, k, levels) {
        Ok((types, before, end)) => {
            let mut types = types;
            let ghost named = types@;
            types.insert(before, ColumnType::String);
            proof {
                assert(column_type::models(types@) =~= column_type::models(named).insert(
                    before as int,
                    Type::Plain(ColumnType::String),
                ));
            }
            Ok((types, end))
        },
        Err(e) => Err(e),
    }
}

/// Steps over a dynamic column at `pos`.
fn skip_dynamic(bytes: &[u8], pos: usize, num_rows: u64, depth: usize) -> (r: Result<
    usize,
    DecodeError,
>)
    requires
        pos <= bytes@.len(),
        depth <= 33,
        num_rows <= usize::MAX,
    ensures
        (match r {
            Ok(next) => pos <= next <= bytes@.len() && dynamic_span(
                bytes@.skip(pos as int),
                num_rows as nat,
                depth as nat,
            ) == Ok::<nat, DecodeError>((next - pos) as nat),
            Err(e) => dynamic_span(bytes@.skip(pos as int), num_rows as nat, depth as nat) == Err::<
                nat,
                DecodeError,
            >(e),
        }),
    decreases 34 - depth, 3nat,
{
    let ghost s = bytes@.skip(pos as int);
    match read_dynamic_head(bytes, pos, 33 - depth) {
        Ok((types, at)) => {
            proof {
                assert(s.skip(at - pos) =~= bytes@.skip(at as int));
            }
            if types.len() > 255 {
                return Err(DecodeError::VariantAlternative);
            }
            skip_variant(bytes, at, &types, num_rows, depth)
        },
        Err(e) => Err(e),
    }
}

/// Decodes a column with a dictionary at `pos`.
pub fn decode_low_cardinality(
    bytes: &[u8],
    pos: usize,
    inner: &ColumnType,
    num_rows: u64,
    depth: usize,
) -> (r: Result<(DecodedColumn, usize), DecodeError>)
    requires
        pos <= bytes@.len(),
        depth <= 33,
    ensures
        outcome(r, pos as int) == decoded_low_cardinality(
            bytes@.skip(pos as int),
            inner.model(),
            num_rows as nat,
            depth as nat,
        ),
        r matches Ok((_, next)) ==> pos <= next <= bytes@.len(),
    decreases 34 - depth, 1nat,
{
    let ghost s = bytes@.skip(pos as int);
    if num_rows > usize::MAX as u64 {
        return Err(DecodeError::RowCount(num_rows));
    }
    let n: usize = num_rows as usize;
    if bytes.len() - pos < 16 {
        return Err(DecodeError::Wire(WireError::Truncated));
    }
    proof {
        assert(s.subrange(8, 16) =~= bytes@.subrange(pos + 8, pos + 16));
    }
    let flags: u64 = u64::from_le_slice(bytes, pos + 8);
    let code: u64 = flags % 4;
    let has_global_dict: bool = (flags / 256) % 2 == 1;
    let has_additional_keys: bool = (flags / 512) % 2 == 1;
    if has_global_dict {
        return Err(DecodeError::GlobalDictionary);
    }
    if !has_additional_keys {
        return Err(DecodeError::NoDictionary);
    }
    if bytes.len() - pos < 24 {
        return Err(DecodeError::Wire(WireError::Truncated));
    }
    proof {
        assert(s.subrange(16, 24) =~= bytes@.subrange(pos + 16, pos + 24));
        assert(s.skip(24) =~= bytes@.skip(pos + 24));
    }
    let keys: u64 = u64::from_le_slice(bytes, pos + 16);
    let (dict_type, is_nullable_inner): (&ColumnType, bool) = match inner {
        ColumnType::Nullable(t) => (t, true),
        t => (t, false),
    };
    let (dict, at) = match decode_column(bytes, pos + 24, dict_type, keys, depth) {
        Ok(v) => v,
        Err(e) => {
            return Err(e);
        },
    };
    if bytes.len() - at < 8 {
        return Err(DecodeError::Wire(WireError::Truncated));
    }
    proof {
        assert(s.subrange(at - pos, at - pos + 8) =~= bytes@.subrange(at as int, at + 8));
        assert(s.skip(at - pos + 8) =~= bytes@.skip(at + 8));
    }
    let count: u64 = u64::from_le_slice(bytes, at);
    if count != num_rows {
        return Err(DecodeError::IndexCount { indices: count, rows: num_rows });
    }
    let (indices, next) = if code == 0 {
        match read_le_column::<u8>(bytes, at + 8, n) {
            Ok((v, next)) => {
                let indices = DecodedColumn::UInt8(v);
                proof {
                    assert(indices.model() == Column::Scalars(ScalarKind::UInt8, numbers(v@)));
                }
                (indices, next)
            },
            Err(e) => {
                return Err(e);
            },
        }
    } else if code == 1 {
        match read_le_column::<u16>(bytes, at + 8, n) {
            Ok((v, next)) => {
                let indices = DecodedColumn::UInt16(v);
                proof {
                    assert(indices.model() == Column::Scalars(ScalarKind::UInt16, numbers(v@)));
                }
                (indices, next)
            },
            Err(e) => {
                return Err(e);
            },
        }
    } else if code == 2 {
        match read_le_column::<u32>(bytes, at + 8, n) {
            Ok((v, next)) => {
                let indices = DecodedColumn::UInt32(v);
                proof {
                    assert(indices.model() == Column::Scalars(ScalarKind::UInt32, numbers(v@)));
                }
                (indices, next)
            },
            Err(e) => {
                return Err(e);
            },
        }
    } else {
        match read_le_column::<u64>(bytes, at + 8, n) {
            Ok((v, next)) => {
                let indices = DecodedColumn::UInt64(v);
                proof {
                    assert(indices.model() == Column::Scalars(ScalarKind::UInt64, numbers(v@)));
                }
                (indices, next)
            },
            Err(e) => {
                return Err(e);
            },
        }
    };
    Ok(
        (
            DecodedColumn::LowCardinality {
                dict: Box::new(dict),
                indices: Box::new(indices),
                is_nullable_inner,
            },
            next,
        ),
    )
}

/// A decoded block: its columns in order, with the names and type names that the server
/// announced.
#[derive(Debug)]
pub struct DecodedBlock {
    pub columns: Vec<DecodedColumn>,
    pub schema: Vec<(String, String)>,
    pub num_rows: u64,
}

/// Why a block could not be decoded.
#[derive(Debug)]
pub enum BlockError {
    /// The header or the values of a column could not be read.
    Column(DecodeError),
    /// A column is serialized in a way that is not supported.
    CustomSerialization { name: String, flag: u8 },
    /// A column has a type that is not known.
    UnknownType { name: String, type_text: String },
}

/// Why a block could not be decoded, with texts as sequences.
pub enum BlockFault {
    Column(DecodeError),
    CustomSerialization { name: Seq<char>, flag: u8 },
    UnknownType { name: Seq<char>, type_text: Seq<char> },
}

impl BlockError {
    /// The error with its texts as sequences.
    pub open spec fn model(self) -> BlockFault {
        match self {
            BlockError::Column(e) => BlockFault::Column(e),
            BlockError::CustomSerialization { name, flag } => BlockFault::CustomSerialization {
                name: name@,
                flag,
            },
            BlockError::UnknownType { name, type_text } => BlockFault::UnknownType {
                name: name@,
                type_text: type_text@,
            },
        }
    }
}

/// The column at the start of the bytes, of the type with the given name; nothing where
/// the name is unknown.
#[verifier::opaque]
pub open spec fn typed_column(s: Seq<u8>, type_text: Seq<char>, rows: nat) -> Option<
    Result<(Column, nat), DecodeError>,
> {
    match column_type::type_named(type_text, column_type::MAX_TYPE_LEVELS as nat) {
        None => None,
        Some(t) => Some(decoded(s, t, rows, 0)),
    }
}

fn decode_typed(bytes: &[u8], pos: usize, type_text: &str, num_rows: u64) -> (r: Option<
    Result<(DecodedColumn, usize), DecodeError>,
>)
    requires
        pos <= bytes@.len(),
    ensures
        (match r {
            None => typed_column(bytes@.skip(pos as int), type_text@, num_rows as nat) is None,
            Some(x) => typed_column(bytes@.skip(pos as int), type_text@, num_rows as nat) == Some(
                outcome(x, pos as int),
            ),
        }),
        r matches Some(Ok((_, next))) ==> pos <= next <= bytes@.len(),
{
    proof {
        reveal(typed_column);
    }
    match ColumnType::parse(type_text) {
        None => None,
        Some(t) => Some(decode_column(bytes, pos, &t, num_rows, 0)),
    }
}

/// One column of a block: its name, its type name and its contents.
pub struct BlockColumn {
    pub name: Seq<char>,
    pub type_text: Seq<char>,
    pub values: Column,
}

/// The column at the start of the bytes: its name, its type name, the flag for custom
/// serialization where the revision has one, and its values.
#[verifier::opaque]
pub open spec fn decoded_entry(s: Seq<u8>, rows: nat, flagged: bool) -> Result<
    (BlockColumn, nat),
    BlockFault,
> {
    match wire::utf8_string(s) {
        Err(e) => Err(BlockFault::Column(DecodeError::Wire(e))),
        Ok((name, a)) => match wire::utf8_string(s.skip(a as int)) {
            Err(e) => Err(BlockFault::Column(DecodeError::Wire(e))),
            Ok((type_text, b)) => if flagged && a + b >= s.len() {
                Err(BlockFault::Column(truncated()))
            } else if flagged && s[(a + b) as int] != 0 {
                Err(BlockFault::CustomSerialization { name, flag: s[(a + b) as int] })
            } else {
                let head = if flagged {
                    a + b + 1
                } else {
                    a + b
                };
                match typed_column(s.skip(head as int), type_text, rows) {
                    None => Err(BlockFault::UnknownType { name, type_text }),
                    Some(Err(e)) => Err(BlockFault::Column(e)),
                    Some(Ok((values, k))) => Ok((BlockColumn { name, type_text, values }, head + k)),
                }
            },
        },
    }
}

/// The columns of a block, one after the other.
pub open spec fn decoded_columns(s: Seq<u8>, columns: nat, rows: nat, flagged: bool) -> Result<
    (Seq<BlockColumn>, nat),
    BlockFault,
>
    decreases columns,
{
    if columns == 0 {
        Ok((Seq::empty(), 0))
    } else {
        match decoded_columns(s, (columns - 1) as nat, rows, flagged) {
            Err(e) => Err(e),
            Ok((v, used)) => match decoded_entry(s.skip(used as int), rows, flagged) {
                Err(e) => Err(e),
                Ok((c, k)) => Ok((v.push(c), used + k)),
            },
        }
    }
}

/// A revision with a flag for custom serialization before the values of each column.
pub open spec fn has_flag(revision: u64) -> bool {
    revision >= DBMS_MIN_PROTOCOL_VERSION_WITH_CUSTOM_SERIALIZATION
}

/// The columns of a block as names, type names and contents.
pub open spec fn block_columns(columns: Seq<DecodedColumn>, schema: Seq<(String, String)>) -> Seq<
    BlockColumn,
> {
    Seq::new(
        columns.len(),
        |i: int|
            BlockColumn {
                name: schema[i].0@,
                type_text: schema[i].1@,
                values: columns[i].model(),
            },
    )
}

proof fn lemma_columns_fail(s: Seq<u8>, k: nat, n: nat, rows: nat, flagged: bool)
    requires
        k <= n,
        decoded_columns(s, k, rows, flagged) is Err,
    ensures
        decoded_columns(s, n, rows, flagged) == decoded_columns(s, k, rows, flagged),
    decreases n,
{
    if k < n {
        lemma_columns_fail(s, k, (n - 1) as nat, rows, flagged);
    }
}

fn decode_entry(bytes: &[u8], pos: usize, num_rows: u64, flagged: bool) -> (r: Result<
    ((String, String), DecodedColumn, usize),
    BlockError,
>)
    requires
        pos <= bytes@.len(),
    ensures
        (match r {
            Ok((names, c, next)) => pos <= next <= bytes@.len() && decoded_entry(
                bytes@.skip(pos as int),
                num_rows as nat,
                flagged,
            ) == Ok::<(BlockColumn, nat), BlockFault>(
                (
                    BlockColumn {
                        name: names.0@,
                        type_text: names.1@,
                        values: c.model(),
                    },
                    (next - pos) as nat,
                ),
            ),
            Err(e) => decoded_entry(bytes@.skip(pos as int), num_rows as nat, flagged) == Err::<
                (BlockColumn, nat),
                BlockFault,
            >(e.model()),
        }),
{
    proof {
        reveal(decoded_entry);
    }
    let ghost s = bytes@.skip(pos as int);
    let (name, mid) = match read_utf8_string(bytes, pos) {
        Ok(v) => v,
        Err(e) => {
            return Err(BlockError::Column(DecodeError::Wire(e)));
        },
    };
    proof {
        assert(s.skip(mid - pos) =~= bytes@.skip(mid as int));
    }
    let (type_text, end) = match read_utf8_string(bytes, mid) {
        Ok(v) => v,
        Err(e) => {
            return Err(BlockError::Column(DecodeError::Wire(e)));
        },
    };
    let mut at: usize = end;
    if flagged {
        if at >= bytes.len() {
            return Err(BlockError::Column(DecodeError::Wire(WireError::Truncated)));
        }
        let flag: u8 = bytes[at];
        proof {
            assert(s[at - pos] == flag);
        }
        if flag != 0 {
            return Err(BlockError::CustomSerialization { name, flag });
        }
        at += 1;
    }
    proof {
        assert(s.skip(at - pos) =~= bytes@.skip(at as int));
    }
    match decode_typed(bytes, at, type_text.as_str(), num_rows) {
        None => Err(BlockError::UnknownType { name, type_text }),
        Some(Err(e)) => Err(BlockError::Column(e)),
        Some(Ok((c, next))) => Ok(((name, type_text), c, next)),
    }
}

/// Decodes one block body at `pos`: `num_columns` columns of `num_rows` rows. Gives the
/// block with the position behind it.
pub fn decode_block(
    bytes: &[u8],
    pos: usize,
    num_columns: u64,
    num_rows: u64,
    server_revision: u64,
) -> (r: Result<(DecodedBlock, usize), BlockError>)
    requires
        pos <= bytes@.len(),
    ensures
        (match r {
            Ok((b, next)) => pos <= next <= bytes@.len() && b.num_rows == num_rows
                && b.columns@.len() == b.schema@.len() && decoded_columns(
                bytes@.skip(pos as int),
                num_columns as nat,
                num_rows as nat,
                has_flag(server_revision),
            ) == Ok::<(Seq<BlockColumn>, nat), BlockFault>(
                (block_columns(b.columns@, b.schema@), (next - pos) as nat),
            ),
            Err(e) => decoded_columns(
                bytes@.skip(pos as int),
                num_columns as nat,
                num_rows as nat,
                has_flag(server_revision),
            ) == Err::<(Seq<BlockColumn>, nat), BlockFault>(e.model()),
        }),
{
    let flagged: bool = server_revision >= DBMS_MIN_PROTOCOL_VERSION_WITH_CUSTOM_SERIALIZATION;
    let ghost s = bytes@.skip(pos as int);
    let mut columns: Vec<DecodedColumn> = Vec::new();
    let mut schema: Vec<(String, String)> = Vec::new();
    let mut at: usize = pos;
    let mut i: u64 = 0;
    proof {
        assert(block_columns(columns@, schema@) =~= Seq::empty());
    }
    while i < num_columns
        invariant
            i <= num_columns,
            pos <= at <= bytes@.len(),
            s == bytes@.skip(pos as int),
            flagged == has_flag(server_revision),
            columns@.len() == schema@.len(),
            decoded_columns(s, i as nat, num_rows as nat, flagged) == Ok::<
                (Seq<BlockColumn>, nat),
                BlockFault,
            >((block_columns(columns@, schema@), (at - pos) as nat)),
        decreases num_columns - i,
    {
        proof {
            assert(s.skip(at - pos) =~= bytes@.skip(at as int));
        }
        match decode_entry(bytes, at, num_rows, flagged) {
            Ok((names, c, next)) => {
                let ghost cs = columns@;
                let ghost ns = schema@;
                columns.push(c);
                schema.push(names);
                proof {
                    assert(block_columns(columns@, schema@) =~= block_columns(cs, ns).push(
                        BlockColumn {
                            name: names.0@,
                            type_text: names.1@,
                            values: c.model(),
                        },
                    ));
                }
                at = next;
            },
            Err(e) => {
                proof {
                    lemma_columns_fail(s, (i + 1) as nat, num_columns as nat, num_rows as nat, flagged);
                }
                return Err(e);
            },
        }
        i += 1;
    }
    Ok((DecodedBlock { columns, schema, num_rows }, at))
}

} // verus!
