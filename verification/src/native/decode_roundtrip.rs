//! Columns as bytes: how a column is written, and that decoding what was written gives
//! the column back.
use vstd::prelude::*;
use vstd::utf8::*;

use crate::native::column_type::{self, ColumnType, Type};
use crate::native::decode::{self, Column, DecodeError, ScalarKind};
use crate::native::decode_laws as laws;
use crate::native::wire;
use crate::text;

verus! {

/// Byte strings one after the other.
pub open spec fn concat(parts: Seq<Seq<u8>>) -> Seq<u8>
    decreases parts.len(),
{
    if parts.len() == 0 {
        Seq::empty()
    } else {
        concat(parts.drop_last()) + parts.last()
    }
}

/// How many bytes a number takes.
pub open spec fn width_of(kind: ScalarKind) -> nat {
    match kind {
        ScalarKind::UInt8 | ScalarKind::Int8 => 1,
        ScalarKind::UInt16 | ScalarKind::Int16 | ScalarKind::Date => 2,
        ScalarKind::UInt32
        | ScalarKind::Int32
        | ScalarKind::Float32
        | ScalarKind::Decimal32 { .. }
        | ScalarKind::Date32
        | ScalarKind::DateTime
        | ScalarKind::Ipv4 => 4,
        ScalarKind::UInt64
        | ScalarKind::Int64
        | ScalarKind::Float64
        | ScalarKind::Decimal64 { .. }
        | ScalarKind::DateTime64 { .. } => 8,
        ScalarKind::UInt128 | ScalarKind::Int128 | ScalarKind::Decimal128 { .. } => 16,
    }
}

/// The code for the width of an index into a dictionary.
pub open spec fn code_of(kind: ScalarKind) -> nat {
    match kind {
        ScalarKind::UInt8 => 0,
        ScalarKind::UInt16 => 1,
        ScalarKind::UInt32 => 2,
        _ => 3,
    }
}

/// Numbers as little-endian bytes of one width.
pub open spec fn scalar_parts(v: Seq<int>, width: nat) -> Seq<Seq<u8>> {
    Seq::new(v.len(), |i: int| wire::le_bytes(wire::without_sign(v[i], width), width))
}

/// End offsets as bytes.
pub open spec fn offset_parts(v: Seq<u64>) -> Seq<Seq<u8>> {
    Seq::new(v.len(), |i: int| wire::le_bytes(v[i] as nat, 8))
}

/// Strings as bytes.
pub open spec fn string_parts(v: Seq<Seq<u8>>) -> Seq<Seq<u8>> {
    Seq::new(v.len(), |i: int| wire::string_wire(v[i]))
}

/// What stands before the entries of a dictionary: the version, the flags that announce
/// the entries and the width of an index, and the number of entries.
pub open spec fn dictionary_head(code: nat, keys: nat) -> Seq<u8> {
    wire::le_bytes(1, 8) + wire::le_bytes(512 + code, 8) + wire::le_bytes(keys, 8)
}

/// The kind of the numbers of a column.
pub open spec fn kind_of(c: Column) -> ScalarKind {
    match c {
        Column::Scalars(kind, _) => kind,
        _ => ScalarKind::UInt8,
    }
}

/// A column as bytes.
pub open spec fn wire_of(c: Column) -> Seq<u8>
    decreases c,
{
    match c {
        Column::Scalars(kind, v) => concat(scalar_parts(v, width_of(kind))),
        Column::Wides(_, v) => concat(v),
        Column::Strings(v) => concat(string_parts(v)),
        Column::FixedStrings { width, bytes } => bytes,
        Column::Nullable { mask, child } => mask + wire_of(*child),
        Column::Array { offsets, child } => concat(offset_parts(offsets)) + wire_of(*child),
        Column::LowCardinality { dict, indices, is_nullable_inner } => dictionary_head(
            code_of(kind_of(*indices)),
            decode::rows_of(*dict),
        ) + wire_of(*dict) + wire::le_bytes(decode::rows_of(*indices), 8) + wire_of(*indices),
        Column::Tuple(fields) => wire_of_fields(fields),
        Column::Mapping { offsets, keys, values } => concat(offset_parts(offsets)) + wire_of(*keys)
            + wire_of(*values),
        Column::Unsupported(_) => Seq::empty(),
    }
}

/// Columns as bytes, one after the other.
pub open spec fn wire_of_fields(fields: Seq<Column>) -> Seq<u8>
    decreases fields,
{
    if fields.len() == 0 {
        Seq::empty()
    } else {
        wire_of_fields(fields.drop_last()) + wire_of(fields.last())
    }
}

/// The types whose values are all decoded, down to the innermost.
pub open spec fn fully_decoded(t: Type) -> bool
    decreases t,
{
    match t {
        Type::Plain(_) => decode::opaque_layout(t) is None,
        Type::DateTime64 { .. } => true,
        Type::Json(_) | Type::Dynamic(_) | Type::Variant { .. } => false,
        Type::Nullable(inner) => fully_decoded(*inner),
        Type::Array(inner) => fully_decoded(*inner),
        Type::Tuple(types) => all_fully_decoded(types),
        Type::Mapping(k, v) => fully_decoded(*k) && fully_decoded(*v),
        Type::LowCardinality(inner) => match *inner {
            Type::Nullable(t) => fully_decoded(*t) && laws::counts_rows(*t),
            t => fully_decoded(t) && laws::counts_rows(t),
        },
        Type::SimpleAggregateFunction(inner) => fully_decoded(*inner),
    }
}

/// Types whose values are all decoded.
pub open spec fn all_fully_decoded(types: Seq<Type>) -> bool
    decreases types,
{
    types.len() > 0 ==> all_fully_decoded(types.drop_last()) && fully_decoded(types.last())
}

proof fn lemma_concat_uniform(parts: Seq<Seq<u8>>, width: nat)
    requires
        forall|i: int| 0 <= i < parts.len() ==> (#[trigger] parts[i]).len() == width,
    ensures
        concat(parts).len() == parts.len() * width,
        forall|i: int|
            0 <= i < parts.len() ==> concat(parts).subrange(i * width, i * width + width)
                == #[trigger] parts[i],
    decreases parts.len(),
{
    if parts.len() > 0 {
        let head = parts.drop_last();
        lemma_concat_uniform(head, width);
        let n = parts.len();
        assert((n - 1) * width + width == n * width) by (nonlinear_arith);
        assert forall|i: int| 0 <= i < parts.len() implies concat(parts).subrange(
            i * width,
            i * width + width,
        ) == #[trigger] parts[i] by {
            if i < n - 1 {
                assert(0 <= i * width && i * width + width <= (n - 1) * width) by (nonlinear_arith)
                    requires
                        0 <= i < n - 1,
                ;
                assert(head[i] == parts[i]);
                assert(concat(parts).subrange(i * width, i * width + width) =~= concat(
                    head,
                ).subrange(i * width, i * width + width));
            } else {
                assert(concat(parts).subrange(i * width, i * width + width) =~= parts.last());
            }
        }
    } else {
        assert(0 * width == 0) by (nonlinear_arith);
    }
}

proof fn lemma_sign_round_trip(v: int, width: nat, signed: bool)
    requires
        wire::fits(v, width, signed),
    ensures
        wire::without_sign(v, width) < wire::pow256(width),
        wire::with_sign(wire::without_sign(v, width), width, signed) == v,
{
}

proof fn lemma_scalars_read_back(v: Seq<int>, width: nat, signed: bool, rest: Seq<u8>)
    requires
        laws::well_formed_scalars(v, v.len(), width, signed),
    ensures
        concat(scalar_parts(v, width)).len() == v.len() * width,
        decode::scalars(concat(scalar_parts(v, width)) + rest, v.len(), width, signed) == Ok::<
            (Seq<int>, nat),
            DecodeError,
        >((v, v.len() * width)),
{
    let parts = scalar_parts(v, width);
    assert forall|i: int| 0 <= i < v.len() implies (#[trigger] parts[i]).len() == width by {
        lemma_sign_round_trip(v[i], width, signed);
        wire::le_bytes_read_back(wire::without_sign(v[i], width), width);
    }
    lemma_concat_uniform(parts, width);
    let s = concat(parts) + rest;
    let n = v.len();
    assert forall|i: int| 0 <= i < n implies #[trigger] decode::value_at(s, i, width, signed)
        == v[i] by {
        assert(0 <= i * width && i * width + width <= n * width) by (nonlinear_arith)
            requires
                0 <= i < n,
        ;
        assert(s.subrange(i * width, i * width + width) =~= concat(parts).subrange(
            i * width,
            i * width + width,
        ));
        assert(concat(parts).subrange(i * width, i * width + width) == parts[i]);
        lemma_sign_round_trip(v[i], width, signed);
        wire::le_bytes_read_back(wire::without_sign(v[i], width), width);
    }
    assert(Seq::new(n, |i: int| decode::value_at(s, i, width, signed)) =~= v);
}

proof fn lemma_blobs_read_back(v: Seq<Seq<u8>>, width: nat, rest: Seq<u8>)
    requires
        forall|i: int| 0 <= i < v.len() ==> (#[trigger] v[i]).len() == width,
    ensures
        concat(v).len() == v.len() * width,
        decode::blobs(concat(v) + rest, v.len(), width) == Ok::<(Seq<Seq<u8>>, nat), DecodeError>(
            (v, v.len() * width),
        ),
{
    lemma_concat_uniform(v, width);
    let s = concat(v) + rest;
    let n = v.len();
    assert forall|i: int| 0 <= i < n implies #[trigger] s.subrange(i * width, i * width + width)
        == v[i] by {
        assert(0 <= i * width && i * width + width <= n * width) by (nonlinear_arith)
            requires
                0 <= i < n,
        ;
        assert(s.subrange(i * width, i * width + width) =~= concat(v).subrange(
            i * width,
            i * width + width,
        ));
        assert(concat(v).subrange(i * width, i * width + width) == v[i]);
    }
    assert(Seq::new(n, |i: int| s.subrange(i * width, i * width + width)) =~= v);
}

proof fn lemma_strings_read_back(v: Seq<Seq<u8>>, rest: Seq<u8>)
    requires
        forall|i: int| 0 <= i < v.len() ==> (#[trigger] v[i]).len() <= wire::MAX_STRING_SIZE,
    ensures
        decode::strings(concat(string_parts(v)) + rest, v.len()) == Ok::<
            (Seq<Seq<u8>>, nat),
            DecodeError,
        >((v, concat(string_parts(v)).len())),
    decreases v.len(),
{
    if v.len() > 0 {
        let head = v.drop_last();
        let last = wire::string_wire(v.last());
        assert(string_parts(v).drop_last() =~= string_parts(head));
        assert(string_parts(v).last() == last);
        let a = concat(string_parts(head));
        assert(concat(string_parts(v)) + rest =~= a + (last + rest));
        lemma_strings_read_back(head, last + rest);
        assert((a + (last + rest)).skip(a.len() as int) =~= last + rest);
        wire::string_reads_back(v.last(), rest);
        assert(head.push(v.last()) =~= v);
    } else {
        assert(v =~= Seq::empty());
    }
}

proof fn lemma_offsets_read_back(v: Seq<u64>, rest: Seq<u8>, bad: DecodeError)
    requires
        laws::nondecreasing(v),
    ensures
        decode::offsets(concat(offset_parts(v)) + rest, v.len(), bad) == Ok::<
            (Seq<u64>, nat),
            DecodeError,
        >((v, concat(offset_parts(v)).len())),
    decreases v.len(),
{
    if v.len() > 0 {
        let head = v.drop_last();
        let last = wire::le_bytes(v.last() as nat, 8);
        assert(offset_parts(v).drop_last() =~= offset_parts(head));
        assert(offset_parts(v).last() == last);
        let a = concat(offset_parts(head));
        let s = concat(offset_parts(v)) + rest;
        assert(s =~= a + (last + rest));
        lemma_offsets_read_back(head, last + rest, bad);
        wire::lemma_pow256_values();
        wire::le_bytes_read_back(v.last() as nat, 8);
        assert(s.subrange(a.len() as int, (a.len() + 8) as int) =~= last);
        assert(decode::last_offset(head) <= v.last());
        assert(head.push(v.last()) =~= v);
    } else {
        assert(v =~= Seq::empty());
    }
}

proof fn lemma_widths(t: Type)
    ensures
        decode::scalar_layout(t) matches Some((kind, width, _)) ==> width_of(kind) == width,
{
}

/// Decoding what a well-formed column is written as gives the column back and consumes
/// exactly its bytes, whatever follows them.
pub proof fn written_columns_decode_to_themselves(
    c: Column,
    t: Type,
    n: nat,
    depth: nat,
    rest: Seq<u8>,
)
    requires
        laws::well_formed(c, t, n, depth),
        fully_decoded(t),
    ensures
        decode::decoded(wire_of(c) + rest, t, n, depth) == Ok::<(Column, nat), DecodeError>(
            (c, wire_of(c).len()),
        ),
    decreases 34 - depth, 0nat,
{
    let s = wire_of(c) + rest;
    if decode::scalar_layout(t) is Some {
        let (kind, width, signed) = decode::scalar_layout(t)->0;
        lemma_widths(t);
        lemma_scalars_read_back(c->Scalars_1, width, signed, rest);
    } else if decode::wide_layout(t) is Some {
        let (kind, width) = decode::wide_layout(t)->0;
        lemma_blobs_read_back(c->Wides_1, width, rest);
    } else {
        match t {
            Type::Plain(ColumnType::FixedString(w)) => {
                assert(s.take((w * n) as int) =~= c->bytes);
            },
            Type::Plain(_) | Type::DateTime64 { .. } => {
                lemma_strings_read_back(c->Strings_0, rest);
            },
            Type::Json(_) | Type::Dynamic(_) | Type::Variant { .. } => {},
            Type::Nullable(inner) => {
                assert(laws::well_formed_nullable(c, *inner, n, depth + 1));
                lemma_nullable_reads_back(c, *inner, n, depth + 1, rest);
            },
            Type::Array(inner) => {
                assert(laws::well_formed_array(c, *inner, n, depth + 1));
                lemma_array_reads_back(c, *inner, n, depth + 1, rest);
            },
            Type::Tuple(types) => {
                assert(laws::well_formed_fields(c->Tuple_0, types, n, depth + 1));
                lemma_fields_read_back(c->Tuple_0, types, n, depth + 1, rest);
            },
            Type::Mapping(key_type, value_type) => {
                assert(laws::well_formed_mapping(c, *key_type, *value_type, n, depth + 1));
                lemma_mapping_reads_back(c, *key_type, *value_type, n, depth + 1, rest);
            },
            Type::LowCardinality(inner) => {
                assert(laws::well_formed_low_cardinality(c, *inner, n, depth + 1));
                lemma_low_cardinality_reads_back(c, *inner, n, depth + 1, rest);
            },
            Type::SimpleAggregateFunction(inner) => {
                written_columns_decode_to_themselves(c, *inner, n, depth + 1, rest);
            },
        }
    }
}

proof fn lemma_nullable_reads_back(c: Column, inner: Type, n: nat, depth: nat, rest: Seq<u8>)
    requires
        depth <= 33,
        laws::well_formed_nullable(c, inner, n, depth),
        fully_decoded(inner),
    ensures
        decode::decoded_nullable(wire_of(c) + rest, inner, n, depth) == Ok::<
            (Column, nat),
            DecodeError,
        >((c, wire_of(c).len())),
    decreases 34 - depth, 1nat,
{
    if let Column::Nullable { mask, child } = c {
        let s = wire_of(c) + rest;
        assert(s =~= mask + (wire_of(*child) + rest));
        assert(s.take(n as int) =~= mask);
        assert(s.skip(n as int) =~= wire_of(*child) + rest);
        written_columns_decode_to_themselves(*child, inner, n, depth, rest);
    }
}

proof fn lemma_array_reads_back(c: Column, inner: Type, n: nat, depth: nat, rest: Seq<u8>)
    requires
        depth <= 33,
        laws::well_formed_array(c, inner, n, depth),
        fully_decoded(inner),
    ensures
        decode::decoded_array(wire_of(c) + rest, inner, n, depth) == Ok::<
            (Column, nat),
            DecodeError,
        >((c, wire_of(c).len())),
    decreases 34 - depth, 1nat,
{
    if let Column::Array { offsets, child } = c {
        let s = wire_of(c) + rest;
        let a = concat(offset_parts(offsets));
        assert(s =~= a + (wire_of(*child) + rest));
        lemma_offsets_read_back(offsets, wire_of(*child) + rest, DecodeError::ArrayOffsets);
        assert(s.skip(a.len() as int) =~= wire_of(*child) + rest);
        written_columns_decode_to_themselves(
            *child,
            inner,
            decode::last_offset(offsets),
            depth,
            rest,
        );
    }
}

proof fn lemma_mapping_reads_back(
    c: Column,
    key_type: Type,
    value_type: Type,
    n: nat,
    depth: nat,
    rest: Seq<u8>,
)
    requires
        depth <= 33,
        laws::well_formed_mapping(c, key_type, value_type, n, depth),
        fully_decoded(key_type),
        fully_decoded(value_type),
    ensures
        decode::decoded_mapping(wire_of(c) + rest, key_type, value_type, n, depth) == Ok::<
            (Column, nat),
            DecodeError,
        >((c, wire_of(c).len())),
    decreases 34 - depth, 1nat,
{
    if let Column::Mapping { offsets, keys, values } = c {
        let s = wire_of(c) + rest;
        let a = concat(offset_parts(offsets));
        let k = wire_of(*keys);
        let v = wire_of(*values);
        let total = decode::last_offset(offsets);
        assert(s =~= a + (k + (v + rest)));
        lemma_offsets_read_back(offsets, k + (v + rest), DecodeError::MapOffsets);
        assert(s.skip(a.len() as int) =~= k + (v + rest));
        written_columns_decode_to_themselves(*keys, key_type, total, depth, v + rest);
        assert(s.skip((a.len() + k.len()) as int) =~= v + rest);
        written_columns_decode_to_themselves(*values, value_type, total, depth, rest);
    }
}

proof fn lemma_fields_read_back(
    fields: Seq<Column>,
    types: Seq<Type>,
    n: nat,
    depth: nat,
    rest: Seq<u8>,
)
    requires
        depth <= 33,
        laws::well_formed_fields(fields, types, n, depth),
        all_fully_decoded(types),
    ensures
        decode::decoded_fields(wire_of_fields(fields) + rest, types, n, depth) == Ok::<
            (Seq<Column>, nat),
            DecodeError,
        >((fields, wire_of_fields(fields).len())),
    decreases 34 - depth, 1 + types.len(),
{
    if types.len() > 0 {
        let head = fields.drop_last();
        let a = wire_of_fields(head);
        let b = wire_of(fields.last());
        let s = wire_of_fields(fields) + rest;
        assert(s =~= a + (b + rest));
        lemma_fields_read_back(head, types.drop_last(), n, depth, b + rest);
        assert(s.skip(a.len() as int) =~= b + rest);
        written_columns_decode_to_themselves(fields.last(), types.last(), n, depth, rest);
        assert(head.push(fields.last()) =~= fields);
    } else {
        assert(fields =~= Seq::empty());
    }
}

/// Columns with the values of each alternative, as many as the rows name.
pub open spec fn well_formed_alternatives(
    columns: Seq<Column>,
    types: Seq<Type>,
    d: Seq<u8>,
    depth: nat,
) -> bool
    decreases types.len(),
{
    columns.len() == types.len() && (types.len() > 0 ==> well_formed_alternatives(
        columns.drop_last(),
        types.drop_last(),
        d,
        depth,
    ) && laws::well_formed(
        columns.last(),
        types.last(),
        decode::count_of(d, types.len() - 1),
        depth,
    ))
}

proof fn lemma_alternatives_are_stepped_over(
    columns: Seq<Column>,
    types: Seq<Type>,
    d: Seq<u8>,
    depth: nat,
    rest: Seq<u8>,
)
    requires
        depth <= 33,
        well_formed_alternatives(columns, types, d, depth),
        all_fully_decoded(types),
    ensures
        decode::alternatives_span(wire_of_fields(columns) + rest, types, d, depth) == Ok::<
            nat,
            DecodeError,
        >(wire_of_fields(columns).len()),
    decreases types.len(),
{
    if types.len() > 0 {
        let head = columns.drop_last();
        let a = wire_of_fields(head);
        let b = wire_of(columns.last());
        let s = wire_of_fields(columns) + rest;
        assert(s =~= a + (b + rest));
        lemma_alternatives_are_stepped_over(head, types.drop_last(), d, depth, b + rest);
        assert(s.skip(a.len() as int) =~= b + rest);
        written_columns_decode_to_themselves(
            columns.last(),
            types.last(),
            decode::count_of(d, types.len() - 1),
            depth,
            rest,
        );
    }
}

/// A column of variants is not decoded, and exactly its bytes are stepped over: the column that
/// follows it is found where it starts.
pub proof fn variants_are_stepped_over(
    name: Seq<char>,
    types: Seq<Type>,
    d: Seq<u8>,
    columns: Seq<Column>,
    depth: nat,
    rest: Seq<u8>,
)
    requires
        depth < decode::MAX_DECODE_DEPTH,
        d.len() <= usize::MAX,
        types.len() <= 255,
        decode::known_alternatives(d, types.len()),
        well_formed_alternatives(columns, types, d, depth + 1),
        all_fully_decoded(types),
    ensures
        ({
            let written = wire::le_bytes(0, 8) + d + wire_of_fields(columns);
            decode::decoded(written + rest, Type::Variant { name, types }, d.len(), depth) == Ok::<
                (Column, nat),
                DecodeError,
            >((Column::Unsupported(name), written.len()))
        }),
{
    let n = d.len();
    let s = wire::le_bytes(0, 8) + d + wire_of_fields(columns) + rest;
    wire::lemma_pow256_values();
    wire::le_bytes_read_back(0, 8);
    assert(s.take(8) =~= wire::le_bytes(0, 8));
    assert(s.subrange(8, (8 + n) as int) =~= d);
    assert(s.skip((8 + n) as int) =~= wire_of_fields(columns) + rest);
    lemma_alternatives_are_stepped_over(columns, types, d, depth + 1, rest);
    let t = Type::Variant { name, types };
    assert(wire::le_nat(s.take(8)) == 0);
    assert(decode::variant_span(s, types, n, depth + 1) == Ok::<nat, DecodeError>(
        8 + n + wire_of_fields(columns).len(),
    ));
    assert(decode::scalar_layout(t) is None && decode::wide_layout(t) is None
        && decode::opaque_layout(t) is None);
}

proof fn lemma_flags(code: nat)
    requires
        code < 4,
    ensures
        !decode::bit_set(512 + code, 256),
        decode::bit_set(512 + code, 512),
        (512 + code) % 4 == code,
{
}

proof fn lemma_low_cardinality_reads_back(
    c: Column,
    inner: Type,
    n: nat,
    depth: nat,
    rest: Seq<u8>,
)
    requires
        depth <= 33,
        n <= usize::MAX,
        laws::well_formed_low_cardinality(c, inner, n, depth),
        fully_decoded(decode::dictionary_type(inner).0),
        laws::counts_rows(decode::dictionary_type(inner).0),
    ensures
        decode::decoded_low_cardinality(wire_of(c) + rest, inner, n, depth) == Ok::<
            (Column, nat),
            DecodeError,
        >((c, wire_of(c).len())),
    decreases 34 - depth, 1nat,
{
    if let Column::LowCardinality { dict, indices, is_nullable_inner } = c {
        let s = wire_of(c) + rest;
        let kind = kind_of(*indices);
        let v = indices->Scalars_1;
        let code = code_of(kind);
        let keys = decode::rows_of(*dict);
        let dict_type = decode::dictionary_type(inner).0;
        let width = choose|width: nat| #[trigger] laws::is_index_kind(kind, width)
            && laws::well_formed_scalars(v, n, width, false);
        let witness = choose|code: nat|
            code < 4 && #[trigger] decode::index_layout(code) == (kind, width);
        assert(witness == code);
        assert(width_of(kind) == width);
        assert(decode::rows_of(*indices) == n);
        let head = dictionary_head(code, keys);
        let d = wire_of(*dict);
        let count = wire::le_bytes(n, 8);
        let w = wire_of(*indices);
        wire::lemma_pow256_values();
        wire::le_bytes_read_back(1, 8);
        wire::le_bytes_read_back(512 + code, 8);
        wire::le_bytes_read_back(keys, 8);
        wire::le_bytes_read_back(n, 8);
        lemma_flags(code);
        assert(s =~= head + (d + (count + (w + rest))));
        assert(s.subrange(8, 16) =~= wire::le_bytes(512 + code, 8));
        assert(s.subrange(16, 24) =~= wire::le_bytes(keys, 8));
        assert(s.skip(24) =~= d + (count + (w + rest)));
        written_columns_decode_to_themselves(*dict, dict_type, keys, depth, count + (w + rest));
        assert(s.subrange((24 + d.len()) as int, (32 + d.len()) as int) =~= count);
        assert(s.skip((32 + d.len()) as int) =~= w + rest);
        assert(w == concat(scalar_parts(v, width)));
        lemma_scalars_read_back(v, width, false, rest);
    }
}

/// A column with its name and type name as bytes.
pub open spec fn entry_wire(c: decode::BlockColumn, flagged: bool) -> Seq<u8> {
    wire::string_wire(encode_utf8(c.name)) + wire::string_wire(encode_utf8(c.type_text)) + (
    if flagged {
        seq![0u8]
    } else {
        Seq::empty()
    }) + wire_of(c.values)
}

/// The columns of a block as bytes.
pub open spec fn block_wire(columns: Seq<decode::BlockColumn>, flagged: bool) -> Seq<u8>
    decreases columns.len(),
{
    if columns.len() == 0 {
        Seq::empty()
    } else {
        block_wire(columns.drop_last(), flagged) + entry_wire(columns.last(), flagged)
    }
}

/// A column of a block: its type name stands for a type that is fully decoded, and its
/// values are a well-formed column of that type.
pub open spec fn well_formed_entry(c: decode::BlockColumn, rows: nat) -> bool {
    &&& encode_utf8(c.name).len() <= wire::MAX_STRING_SIZE
    &&& encode_utf8(c.type_text).len() <= wire::MAX_STRING_SIZE
    &&& column_type::type_named(c.type_text, column_type::MAX_TYPE_LEVELS as nat) matches Some(t)
        && fully_decoded(t) && laws::well_formed(c.values, t, rows, 0)
}

proof fn lemma_utf8_reads_back(text: Seq<char>, rest: Seq<u8>)
    requires
        encode_utf8(text).len() <= wire::MAX_STRING_SIZE,
    ensures
        wire::utf8_string(wire::string_wire(encode_utf8(text)) + rest) == Ok::<
            (Seq<char>, nat),
            wire::WireError,
        >((text, wire::string_wire(encode_utf8(text)).len())),
{
    wire::string_reads_back(encode_utf8(text), rest);
    encode_utf8_valid_utf8(text);
    encode_utf8_decode_utf8(text);
}

proof fn lemma_entry_reads_back(c: decode::BlockColumn, rows: nat, flagged: bool, rest: Seq<u8>)
    requires
        well_formed_entry(c, rows),
    ensures
        decode::decoded_entry(entry_wire(c, flagged) + rest, rows, flagged) == Ok::<
            (decode::BlockColumn, nat),
            decode::BlockFault,
        >((c, entry_wire(c, flagged).len())),
{
    let t = column_type::type_named(c.type_text, column_type::MAX_TYPE_LEVELS as nat)->0;
    let s = entry_wire(c, flagged) + rest;
    let a = wire::string_wire(encode_utf8(c.name));
    let b = wire::string_wire(encode_utf8(c.type_text));
    let f = if flagged {
        seq![0u8]
    } else {
        Seq::empty()
    };
    let w = wire_of(c.values);
    assert(s =~= a + (b + (f + (w + rest))));
    lemma_utf8_reads_back(c.name, b + (f + (w + rest)));
    assert(s.skip(a.len() as int) =~= b + (f + (w + rest)));
    lemma_utf8_reads_back(c.type_text, f + (w + rest));
    if flagged {
        assert(s[(a.len() + b.len()) as int] == f[0]);
    }
    assert(s.skip((a.len() + b.len() + f.len()) as int) =~= w + rest);
    written_columns_decode_to_themselves(c.values, t, rows, 0, rest);
    reveal(decode::typed_column);
    reveal(decode::decoded_entry);
}

/// Decoding what the columns of a block are written as gives the columns back, with their
/// names and type names, and consumes exactly their bytes, whatever follows them.
pub proof fn written_blocks_decode_to_themselves(
    columns: Seq<decode::BlockColumn>,
    rows: nat,
    flagged: bool,
    rest: Seq<u8>,
)
    requires
        forall|i: int| 0 <= i < columns.len() ==> well_formed_entry(#[trigger] columns[i], rows),
    ensures
        decode::decoded_columns(block_wire(columns, flagged) + rest, columns.len(), rows, flagged)
            == Ok::<(Seq<decode::BlockColumn>, nat), decode::BlockFault>(
            (columns, block_wire(columns, flagged).len()),
        ),
    decreases columns.len(),
{
    if columns.len() > 0 {
        let head = columns.drop_last();
        let a = block_wire(head, flagged);
        let b = entry_wire(columns.last(), flagged);
        let s = block_wire(columns, flagged) + rest;
        assert(s =~= a + (b + rest));
        assert forall|i: int| 0 <= i < head.len() implies well_formed_entry(
            #[trigger] head[i],
            rows,
        ) by {
            assert(head[i] == columns[i]);
        }
        written_blocks_decode_to_themselves(head, rows, flagged, b + rest);
        assert(s.skip(a.len() as int) =~= b + rest);
        lemma_entry_reads_back(columns.last(), rows, flagged, rest);
        assert(head.push(columns.last()) =~= columns);
    } else {
        assert(columns =~= Seq::empty());
    }
}

/// How many types are nested in one another.
pub open spec fn levels_of(t: Type) -> nat
    decreases t,
{
    match t {
        Type::Plain(_) | Type::DateTime64 { .. } | Type::Json(_) => 1,
        Type::Dynamic(_) => 2,
        Type::Variant { types, .. } => 1 + most_levels(types),
        Type::Nullable(inner) => 1 + levels_of(*inner),
        Type::Array(inner) => 1 + levels_of(*inner),
        Type::Tuple(types) => 1 + most_levels(types),
        Type::Mapping(k, v) => 1 + larger(levels_of(*k), levels_of(*v)),
        Type::LowCardinality(inner) => 1 + levels_of(*inner),
        Type::SimpleAggregateFunction(inner) => 1 + levels_of(*inner),
    }
}

/// The larger of two numbers.
pub open spec fn larger(a: nat, b: nat) -> nat {
    if a < b {
        b
    } else {
        a
    }
}

/// The most levels that one of the types has.
pub open spec fn most_levels(types: Seq<Type>) -> nat
    decreases types,
{
    if types.len() == 0 {
        0
    } else {
        larger(most_levels(types.drop_last()), levels_of(types.last()))
    }
}

proof fn lemma_named_levels(s: Seq<char>, levels: nat)
    ensures
        column_type::type_named(s, levels) matches Some(t) ==> levels_of(t) <= levels,
    decreases levels, 0nat,
{
    if levels > 0 {
        let t = text::trimmed(s);
        let below = (levels - 1) as nat;
        if let Some((head, args)) = column_type::head_and_args(t) {
            lemma_named_levels(args, below);
            let parts = column_type::split_args(args);
            lemma_elements_levels(parts, below);
            if parts.len() == 2 {
                lemma_named_levels(parts[0], below);
                lemma_named_levels(parts[1], below);
            }
        }
    }
}

proof fn lemma_elements_levels(parts: Seq<Seq<char>>, levels: nat)
    ensures
        column_type::elements_named(parts, levels) matches Some(ts) ==> most_levels(ts) <= levels,
    decreases levels, 2 + parts.len(),
{
    if parts.len() > 0 {
        lemma_elements_levels(parts.drop_last(), levels);
        let last = parts.last();
        lemma_named_levels(last, levels);
        if let Some(rest) = column_type::after_name(last) {
            lemma_named_levels(rest, levels);
        }
        assert(column_type::element_named(last, levels) matches Some(t) ==> levels_of(t) <= levels);
        if let Some(ts) = column_type::elements_named(parts.drop_last(), levels) {
            if let Some(t) = column_type::element_named(last, levels) {
                assert(ts.push(t).drop_last() =~= ts);
            }
        }
    }
}

proof fn lemma_offsets_errors(s: Seq<u8>, n: nat, bad: DecodeError)
    requires
        bad != DecodeError::TooDeep,
    ensures
        decode::offsets(s, n, bad) != Err::<(Seq<u64>, nat), DecodeError>(DecodeError::TooDeep),
    decreases n,
{
    if n > 0 {
        lemma_offsets_errors(s, (n - 1) as nat, bad);
    }
}

proof fn lemma_strings_errors(s: Seq<u8>, n: nat)
    ensures
        decode::strings(s, n) != Err::<(Seq<Seq<u8>>, nat), DecodeError>(DecodeError::TooDeep),
    decreases n,
{
    if n > 0 {
        lemma_strings_errors(s, (n - 1) as nat);
    }
}

proof fn lemma_nested_errors(s: Seq<u8>, n: nat, width: nat, levels: nat)
    ensures
        decode::nested_span(s, n, width, levels) != Err::<nat, DecodeError>(DecodeError::TooDeep),
    decreases levels,
{
    if levels > 0 {
        lemma_offsets_errors(s, n, DecodeError::ArrayOffsets);
        if let Ok((v, used)) = decode::offsets(s, n, DecodeError::ArrayOffsets) {
            lemma_nested_errors(
                s.skip(used as int),
                decode::last_offset(v),
                width,
                (levels - 1) as nat,
            );
        }
    }
}

proof fn lemma_depth_suffices(s: Seq<u8>, t: Type, n: nat, depth: nat)
    requires
        levels_of(t) + depth <= 33,
    ensures
        decode::decoded(s, t, n, depth) != Err::<(Column, nat), DecodeError>(DecodeError::TooDeep),
    decreases 34 - depth, 0nat,
{
    if decode::scalar_layout(t) is Some || decode::wide_layout(t) is Some {
    } else if let Some((name, layout)) = decode::opaque_layout(t) {
        match layout {
            decode::Opaque::Strings => lemma_strings_errors(s, n),
            decode::Opaque::Fixed { width, levels } => lemma_nested_errors(
                s,
                n,
                width as nat,
                levels as nat,
            ),
        }
    } else {
        match t {
            Type::Plain(_) | Type::DateTime64 { .. } | Type::Json(_) => lemma_strings_errors(s, n),
            Type::Variant { name, types } => lemma_variant_depth_suffices(s, types, n, depth + 1),
            Type::Dynamic(name) => lemma_dynamic_depth_suffices(s, n, depth + 1),
            Type::Nullable(inner) => {
                assert(decode::decoded_nullable(s, *inner, n, depth + 1) != Err::<
                    (Column, nat),
                    DecodeError,
                >(DecodeError::TooDeep)) by {
                    lemma_depth_suffices(s.skip(n as int), *inner, n, depth + 1);
                }
            },
            Type::Array(inner) => {
                lemma_offsets_errors(s, n, DecodeError::ArrayOffsets);
                assert(decode::decoded_array(s, *inner, n, depth + 1) != Err::<
                    (Column, nat),
                    DecodeError,
                >(DecodeError::TooDeep)) by {
                    if let Ok((v, used)) = decode::offsets(s, n, DecodeError::ArrayOffsets) {
                        lemma_depth_suffices(
                            s.skip(used as int),
                            *inner,
                            decode::last_offset(v),
                            depth + 1,
                        );
                    }
                }
            },
            Type::Tuple(types) => lemma_fields_depth_suffices(s, types, n, depth + 1),
            Type::Mapping(key_type, value_type) => {
                lemma_offsets_errors(s, n, DecodeError::MapOffsets);
                assert(decode::decoded_mapping(s, *key_type, *value_type, n, depth + 1) != Err::<
                    (Column, nat),
                    DecodeError,
                >(DecodeError::TooDeep)) by {
                    if let Ok((v, used)) = decode::offsets(s, n, DecodeError::MapOffsets) {
                        let total = decode::last_offset(v);
                        lemma_depth_suffices(s.skip(used as int), *key_type, total, depth + 1);
                        if let Ok((keys, k)) = decode::decoded(
                            s.skip(used as int),
                            *key_type,
                            total,
                            depth + 1,
                        ) {
                            lemma_depth_suffices(
                                s.skip((used + k) as int),
                                *value_type,
                                total,
                                depth + 1,
                            );
                        }
                    }
                }
            },
            Type::LowCardinality(inner) => {
                reveal_with_fuel(levels_of, 2);
                assert(decode::decoded_low_cardinality(s, *inner, n, depth + 1) != Err::<
                    (Column, nat),
                    DecodeError,
                >(DecodeError::TooDeep)) by {
                    if s.len() >= 24 {
                        lemma_depth_suffices(
                            s.skip(24),
                            decode::dictionary_type(*inner).0,
                            wire::le_nat(s.subrange(16, 24)),
                            depth + 1,
                        );
                    }
                }
            },
            Type::SimpleAggregateFunction(inner) => lemma_depth_suffices(s, *inner, n, depth + 1),
        }
    }
}

proof fn lemma_alternatives_depth_suffices(s: Seq<u8>, types: Seq<Type>, d: Seq<u8>, depth: nat)
    requires
        most_levels(types) + depth <= 33,
        depth <= 33,
    ensures
        decode::alternatives_span(s, types, d, depth) != Err::<nat, DecodeError>(
            DecodeError::TooDeep,
        ),
    decreases 34 - depth, 1 + types.len(),
{
    if types.len() > 0 {
        lemma_alternatives_depth_suffices(s, types.drop_last(), d, depth);
        if let Ok(used) = decode::alternatives_span(s, types.drop_last(), d, depth) {
            lemma_depth_suffices(
                s.skip(used as int),
                types.last(),
                decode::count_of(d, types.len() - 1),
                depth,
            );
        }
    }
}

proof fn lemma_variant_depth_suffices(s: Seq<u8>, types: Seq<Type>, n: nat, depth: nat)
    requires
        most_levels(types) + depth <= 33,
        depth <= 33,
    ensures
        decode::variant_span(s, types, n, depth) != Err::<nat, DecodeError>(DecodeError::TooDeep),
    decreases 34 - depth, 2 + types.len(),
{
    if s.len() >= 8 + n {
        lemma_alternatives_depth_suffices(
            s.skip((8 + n) as int),
            types,
            s.subrange(8, (8 + n) as int),
            depth,
        );
    }
}

proof fn lemma_most_levels_insert(types: Seq<Type>, at: int, t: Type, levels: nat)
    requires
        0 <= at <= types.len(),
        most_levels(types) <= levels,
        levels_of(t) <= levels,
    ensures
        most_levels(types.insert(at, t)) <= levels,
    decreases types.len(),
{
    let all = types.insert(at, t);
    if at == types.len() {
        assert(all.drop_last() =~= types);
    } else {
        assert(all.drop_last() =~= types.drop_last().insert(at, t));
        lemma_most_levels_insert(types.drop_last(), at, t, levels);
    }
}

proof fn lemma_dynamic_types_levels(s: Seq<u8>, k: nat, levels: nat)
    ensures
        (match decode::dynamic_types(s, k, levels) {
            Ok((types, before, _)) => most_levels(types) <= levels && before <= types.len(),
            Err(e) => e != DecodeError::TooDeep,
        }),
    decreases k,
{
    if k > 0 {
        lemma_dynamic_types_levels(s, (k - 1) as nat, levels);
        if let Ok((types, before, used)) = decode::dynamic_types(s, (k - 1) as nat, levels) {
            if let Ok((name, len)) = wire::utf8_string(s.skip(used as int)) {
                lemma_named_levels(name, levels);
                if let Some(t) = column_type::type_named(name, levels) {
                    assert(types.push(t).drop_last() =~= types);
                }
            }
        }
    }
}

proof fn lemma_dynamic_depth_suffices(s: Seq<u8>, n: nat, depth: nat)
    requires
        depth <= 32,
    ensures
        decode::dynamic_span(s, n, depth) != Err::<nat, DecodeError>(DecodeError::TooDeep),
    decreases 34 - depth, 1000nat,
{
    let levels = (33 - depth) as nat;
    if s.len() >= 8 {
        let version = wire::le_nat(s.take(8));
        let first: Result<(nat, nat), wire::WireError> = if version == 1 {
            wire::varuint(s.skip(8))
        } else {
            Ok((0, 0))
        };
        if let Ok((_, a)) = first {
            if let Ok((k, b)) = wire::varuint(s.skip((8 + a) as int)) {
                let tail = s.skip((8 + a + b) as int);
                lemma_dynamic_types_levels(tail, k, levels);
                if let Ok((types, before, c)) = decode::dynamic_types(tail, k, levels) {
                    lemma_most_levels_insert(
                        types,
                        before as int,
                        Type::Plain(ColumnType::String),
                        levels,
                    );
                }
            }
        }
    }
    if let Ok((types, head)) = decode::dynamic_head(s, levels) {
        if types.len() <= 255 {
            lemma_variant_depth_suffices(s.skip(head as int), types, n, depth);
        }
    }
}

proof fn lemma_fields_depth_suffices(s: Seq<u8>, types: Seq<Type>, n: nat, depth: nat)
    requires
        most_levels(types) + depth <= 33,
        depth <= 33,
    ensures
        decode::decoded_fields(s, types, n, depth) != Err::<(Seq<Column>, nat), DecodeError>(
            DecodeError::TooDeep,
        ),
    decreases 34 - depth, 1 + types.len(),
{
    if types.len() > 0 {
        lemma_fields_depth_suffices(s, types.drop_last(), n, depth);
        if let Ok((fields, used)) = decode::decoded_fields(s, types.drop_last(), n, depth) {
            lemma_depth_suffices(s.skip(used as int), types.last(), n, depth);
        }
    }
}

/// A type that was announced by name is never nested too deep to be decoded: the limit of
/// the decoder only stops types that come from elsewhere.
pub proof fn announced_types_are_never_too_deep(name: Seq<char>, s: Seq<u8>, n: nat)
    ensures
        column_type::type_named(name, column_type::MAX_TYPE_LEVELS as nat) matches Some(t)
            ==> decode::decoded(s, t, n, 0) != Err::<(Column, nat), DecodeError>(
            DecodeError::TooDeep,
        ),
{
    lemma_named_levels(name, column_type::MAX_TYPE_LEVELS as nat);
    if let Some(t) = column_type::type_named(name, column_type::MAX_TYPE_LEVELS as nat) {
        lemma_depth_suffices(s, t, n, 0);
    }
}

/// A type that a name stands for never nests more types than are allowed.
pub proof fn named_types_stay_within_their_levels(name: Seq<char>, levels: nat)
    ensures
        column_type::type_named(name, levels) matches Some(t) ==> levels_of(t) <= levels,
        column_type::type_named(name, 0) is None,
        column_type::MAX_TYPE_LEVELS == 33,
{
    lemma_named_levels(name, levels);
}

/// What stands in front of the values of a column: its name, its type name and, where there is one, the
/// flag for custom serialization.
pub open spec fn entry_head(name: Seq<char>, type_text: Seq<char>, flag: Option<u8>) -> Seq<u8> {
    wire::string_wire(encode_utf8(name)) + wire::string_wire(encode_utf8(type_text)) + match flag {
        Some(f) => seq![f],
        None => Seq::empty(),
    }
}

proof fn lemma_entry_head(name: Seq<char>, type_text: Seq<char>, flag: Option<u8>, rest: Seq<u8>)
    requires
        encode_utf8(name).len() <= wire::MAX_STRING_SIZE,
        encode_utf8(type_text).len() <= wire::MAX_STRING_SIZE,
    ensures
        ({
            let s = entry_head(name, type_text, flag) + rest;
            let a = wire::string_wire(encode_utf8(name)).len();
            let b = wire::string_wire(encode_utf8(type_text)).len();
            &&& wire::utf8_string(s) == Ok::<(Seq<char>, nat), wire::WireError>((name, a))
            &&& wire::utf8_string(s.skip(a as int)) == Ok::<(Seq<char>, nat), wire::WireError>(
                (type_text, b),
            )
            &&& flag matches Some(f) ==> a + b < s.len() && s[(a + b) as int] == f && s.skip(
                (a + b + 1) as int,
            ) == rest
            &&& flag is None ==> s.skip((a + b) as int) == rest
        }),
{
    let s = entry_head(name, type_text, flag) + rest;
    let a = wire::string_wire(encode_utf8(name));
    let b = wire::string_wire(encode_utf8(type_text));
    let f = match flag {
        Some(f) => seq![f],
        None => Seq::empty(),
    };
    assert(s =~= a + (b + (f + rest)));
    assert(s.skip(a.len() as int) =~= b + (f + rest));
    lemma_utf8_reads_back(name, b + (f + rest));
    lemma_utf8_reads_back(type_text, f + rest);
    if flag is Some {
        assert(s[(a.len() + b.len()) as int] == f[0]);
        assert(s.skip((a.len() + b.len() + 1) as int) =~= rest);
    } else {
        assert(s.skip((a.len() + b.len()) as int) =~= rest);
    }
}

/// A column with custom serialization is refused, and the refusal names the column and its flag.
pub proof fn custom_serialization_is_refused(
    name: Seq<char>,
    type_text: Seq<char>,
    flag: u8,
    rest: Seq<u8>,
    rows: nat,
)
    requires
        encode_utf8(name).len() <= wire::MAX_STRING_SIZE,
        encode_utf8(type_text).len() <= wire::MAX_STRING_SIZE,
        flag != 0,
    ensures
        decode::decoded_entry(entry_head(name, type_text, Some(flag)) + rest, rows, true) == Err::<
            (decode::BlockColumn, nat),
            decode::BlockFault,
        >(decode::BlockFault::CustomSerialization { name, flag }),
{
    reveal(decode::decoded_entry);
    lemma_entry_head(name, type_text, Some(flag), rest);
}

/// A column of an unknown type is refused, and the refusal names the column and its type.
pub proof fn unknown_types_are_refused(
    name: Seq<char>,
    type_text: Seq<char>,
    rest: Seq<u8>,
    rows: nat,
)
    requires
        encode_utf8(name).len() <= wire::MAX_STRING_SIZE,
        encode_utf8(type_text).len() <= wire::MAX_STRING_SIZE,
        column_type::type_named(type_text, 33) is None,
    ensures
        decode::decoded_entry(entry_head(name, type_text, Some(0)) + rest, rows, true) == Err::<
            (decode::BlockColumn, nat),
            decode::BlockFault,
        >(decode::BlockFault::UnknownType { name, type_text }),
        decode::decoded_entry(entry_head(name, type_text, None) + rest, rows, false) == Err::<
            (decode::BlockColumn, nat),
            decode::BlockFault,
        >(decode::BlockFault::UnknownType { name, type_text }),
{
    reveal(decode::typed_column);
    reveal(decode::decoded_entry);
    lemma_entry_head(name, type_text, Some(0), rest);
    lemma_entry_head(name, type_text, None, rest);
}

} // verus!
