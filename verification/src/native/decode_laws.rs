//! What holds of every decoded column: it does not depend on what follows it, it is a
//! well-formed column of its type, and writing it down again gives back what was read.
use vstd::prelude::*;

use crate::native::column_type::{self, ColumnType, Type};
use crate::native::decode::{
    self, Column, DecodeError, ScalarKind, MAX_DECODE_DEPTH,
};
use crate::native::wire::{self, WireError, MAX_STRING_SIZE};

verus! {

proof fn lemma_subrange_extends(s: Seq<u8>, rest: Seq<u8>, a: int, b: int)
    requires
        0 <= a <= b <= s.len(),
    ensures
        (s + rest).subrange(a, b) == s.subrange(a, b),
{
    assert((s + rest).subrange(a, b) =~= s.subrange(a, b));
}

proof fn lemma_skip_extends(s: Seq<u8>, rest: Seq<u8>, a: int)
    requires
        0 <= a <= s.len(),
    ensures
        (s + rest).skip(a) == s.skip(a) + rest,
{
    assert((s + rest).skip(a) =~= s.skip(a) + rest);
}

proof fn lemma_scalars_extend(s: Seq<u8>, rest: Seq<u8>, n: nat, width: nat, signed: bool)
    ensures
        decode::scalars(s, n, width, signed) matches Ok((v, used)) ==> used <= s.len() && v.len()
            == n,
        decode::scalars(s, n, width, signed) != Err::<(Seq<int>, nat), DecodeError>(
            decode::truncated(),
        ) ==> decode::scalars(s + rest, n, width, signed) == decode::scalars(s, n, width, signed),
{
    if n * width <= s.len() && n * width <= usize::MAX {
        assert forall|i: int| 0 <= i < n implies decode::value_at(s + rest, i, width, signed)
            == #[trigger] decode::value_at(s, i, width, signed) by {
            assert(0 <= i * width && i * width + width <= n * width) by (nonlinear_arith)
                requires
                    0 <= i < n,
            ;
            lemma_subrange_extends(s, rest, i * width, i * width + width);
        }
        assert(Seq::new(n, |i: int| decode::value_at(s + rest, i, width, signed)) =~= Seq::new(
            n,
            |i: int| decode::value_at(s, i, width, signed),
        ));
    }
}

proof fn lemma_blobs_extend(s: Seq<u8>, rest: Seq<u8>, n: nat, width: nat)
    ensures
        decode::blobs(s, n, width) matches Ok((v, used)) ==> used <= s.len() && v.len() == n,
        decode::blobs(s, n, width) != Err::<(Seq<Seq<u8>>, nat), DecodeError>(decode::truncated())
            ==> decode::blobs(s + rest, n, width) == decode::blobs(s, n, width),
{
    if n * width <= s.len() {
        assert forall|i: int| 0 <= i < n implies (s + rest).subrange(i * width, i * width + width)
            == #[trigger] s.subrange(i * width, i * width + width) by {
            assert(0 <= i * width && i * width + width <= n * width) by (nonlinear_arith)
                requires
                    0 <= i < n,
            ;
            lemma_subrange_extends(s, rest, i * width, i * width + width);
        }
        assert(Seq::new(n, |i: int| (s + rest).subrange(i * width, i * width + width))
            =~= Seq::new(n, |i: int| s.subrange(i * width, i * width + width)));
    }
}

proof fn lemma_raw_extend(s: Seq<u8>, rest: Seq<u8>, n: nat)
    ensures
        decode::raw(s, n) is Ok ==> decode::raw(s + rest, n) == decode::raw(s, n),
{
    if n <= s.len() {
        assert((s + rest).take(n as int) =~= s.take(n as int));
    }
}

proof fn lemma_strings_extend(s: Seq<u8>, rest: Seq<u8>, n: nat)
    ensures
        decode::strings(s, n) matches Ok((v, used)) ==> used <= s.len() && v.len() == n,
        decode::strings(s, n) != Err::<(Seq<Seq<u8>>, nat), DecodeError>(decode::truncated())
            ==> decode::strings(s + rest, n) == decode::strings(s, n),
    decreases n,
{
    if n > 0 {
        lemma_strings_extend(s, rest, (n - 1) as nat);
        if let Ok((v, used)) = decode::strings(s, (n - 1) as nat) {
            lemma_skip_extends(s, rest, used as int);
            let tail = s.skip(used as int);
            if wire::string_bytes(tail) != Err::<(Seq<u8>, nat), WireError>(WireError::Truncated) {
                wire::lemma_string_extends(tail, rest);
            }
        }
    }
}

proof fn lemma_offsets_extend(s: Seq<u8>, rest: Seq<u8>, n: nat, bad: DecodeError)
    ensures
        decode::offsets(s, n, bad) matches Ok((v, used)) ==> used <= s.len() && v.len() == n,
        decode::offsets(s, n, bad) != Err::<(Seq<u64>, nat), DecodeError>(decode::truncated())
            ==> decode::offsets(s + rest, n, bad) == decode::offsets(s, n, bad),
    decreases n,
{
    if n > 0 {
        lemma_offsets_extend(s, rest, (n - 1) as nat, bad);
        if let Ok((v, used)) = decode::offsets(s, (n - 1) as nat, bad) {
            if used + 8 <= s.len() {
                lemma_subrange_extends(s, rest, used as int, (used + 8) as int);
            }
        }
    }
}

proof fn lemma_nested_extend(s: Seq<u8>, rest: Seq<u8>, n: nat, width: nat, levels: nat)
    ensures
        decode::nested_span(s, n, width, levels) matches Ok(used) ==> used <= s.len(),
        decode::nested_span(s, n, width, levels) != Err::<nat, DecodeError>(decode::truncated())
            ==> decode::nested_span(s + rest, n, width, levels) == decode::nested_span(
            s,
            n,
            width,
            levels,
        ),
    decreases levels,
{
    if n <= usize::MAX && levels > 0 {
        lemma_offsets_extend(s, rest, n, DecodeError::ArrayOffsets);
        if let Ok((v, used)) = decode::offsets(s, n, DecodeError::ArrayOffsets) {
            lemma_skip_extends(s, rest, used as int);
            lemma_nested_extend(
                s.skip(used as int),
                rest,
                decode::last_offset(v),
                width,
                (levels - 1) as nat,
            );
        }
    }
}

proof fn lemma_opaque_extend(s: Seq<u8>, rest: Seq<u8>, n: nat, layout: decode::Opaque)
    ensures
        decode::opaque_span(s, n, layout) matches Ok(used) ==> used <= s.len(),
        decode::opaque_span(s, n, layout) != Err::<nat, DecodeError>(decode::truncated())
            ==> decode::opaque_span(s + rest, n, layout) == decode::opaque_span(s, n, layout),
{
    match layout {
        decode::Opaque::Strings => lemma_strings_extend(s, rest, n),
        decode::Opaque::Fixed { width, levels } => lemma_nested_extend(
            s,
            rest,
            n,
            width as nat,
            levels as nat,
        ),
    }
}

/// Decoding a column consumes no more than there is, and whether and as what it decodes
/// does not depend on the bytes that follow it. Only where the bytes were cut short do
/// more bytes change the outcome.
pub proof fn decoding_ignores_what_follows(
    s: Seq<u8>,
    rest: Seq<u8>,
    t: Type,
    n: nat,
    depth: nat,
)
    ensures
        decode::decoded(s, t, n, depth) matches Ok((_, used)) ==> used <= s.len(),
        decode::decoded(s, t, n, depth) != Err::<(Column, nat), DecodeError>(decode::truncated())
            ==> decode::decoded(s + rest, t, n, depth) == decode::decoded(s, t, n, depth),
    decreases 34 - depth, 0nat,
{
    if depth > MAX_DECODE_DEPTH || n > usize::MAX {
    } else if decode::scalar_layout(t) is Some {
        let (kind, width, signed) = decode::scalar_layout(t)->0;
        lemma_scalars_extend(s, rest, n, width, signed);
    } else if decode::wide_layout(t) is Some {
        let (kind, width) = decode::wide_layout(t)->0;
        lemma_blobs_extend(s, rest, n, width);
    } else if decode::opaque_layout(t) is Some {
        lemma_opaque_extend(s, rest, n, (decode::opaque_layout(t)->0).1);
    } else {
        match t {
            Type::Plain(ColumnType::FixedString(width)) => {
                lemma_raw_extend(s, rest, (width * n) as nat);
            },
            Type::Plain(_) | Type::DateTime64 { .. } | Type::Json(_) => {
                lemma_strings_extend(s, rest, n);
            },
            Type::Variant { name, types } => {
                lemma_variant_extends(s, rest, types, n, depth + 1);
            },
            Type::Dynamic(name) => {
                lemma_dynamic_extends(s, rest, n, depth + 1);
            },
            Type::Nullable(inner) => {
                lemma_nullable_extends(s, rest, *inner, n, depth + 1);
            },
            Type::Array(inner) => {
                lemma_array_extends(s, rest, *inner, n, depth + 1);
            },
            Type::Tuple(types) => {
                lemma_fields_extend(s, rest, types, n, depth + 1);
            },
            Type::Mapping(key_type, value_type) => {
                lemma_mapping_extends(s, rest, *key_type, *value_type, n, depth + 1);
            },
            Type::LowCardinality(inner) => {
                lemma_low_cardinality_extends(s, rest, *inner, n, depth + 1);
            },
            Type::SimpleAggregateFunction(inner) => {
                decoding_ignores_what_follows(s, rest, *inner, n, depth + 1);
            },
        }
    }
}

proof fn lemma_nullable_extends(s: Seq<u8>, rest: Seq<u8>, inner: Type, n: nat, depth: nat)
    requires
        depth <= 33,
    ensures
        decode::decoded_nullable(s, inner, n, depth) matches Ok((_, used)) ==> used <= s.len(),
        decode::decoded_nullable(s, inner, n, depth) != Err::<(Column, nat), DecodeError>(
            decode::truncated(),
        ) ==> decode::decoded_nullable(s + rest, inner, n, depth) == decode::decoded_nullable(
            s,
            inner,
            n,
            depth,
        ),
    decreases 34 - depth, 1nat,
{
    lemma_raw_extend(s, rest, n);
    if n <= s.len() {
        lemma_skip_extends(s, rest, n as int);
        decoding_ignores_what_follows(s.skip(n as int), rest, inner, n, depth);
    }
}

proof fn lemma_array_extends(s: Seq<u8>, rest: Seq<u8>, inner: Type, n: nat, depth: nat)
    requires
        depth <= 33,
    ensures
        decode::decoded_array(s, inner, n, depth) matches Ok((_, used)) ==> used <= s.len(),
        decode::decoded_array(s, inner, n, depth) != Err::<(Column, nat), DecodeError>(
            decode::truncated(),
        ) ==> decode::decoded_array(s + rest, inner, n, depth) == decode::decoded_array(
            s,
            inner,
            n,
            depth,
        ),
    decreases 34 - depth, 1nat,
{
    lemma_offsets_extend(s, rest, n, DecodeError::ArrayOffsets);
    if let Ok((v, used)) = decode::offsets(s, n, DecodeError::ArrayOffsets) {
        lemma_skip_extends(s, rest, used as int);
        decoding_ignores_what_follows(
            s.skip(used as int),
            rest,
            inner,
            decode::last_offset(v),
            depth,
        );
    }
}

proof fn lemma_mapping_extends(
    s: Seq<u8>,
    rest: Seq<u8>,
    key_type: Type,
    value_type: Type,
    n: nat,
    depth: nat,
)
    requires
        depth <= 33,
    ensures
        decode::decoded_mapping(s, key_type, value_type, n, depth) matches Ok((_, used)) ==> used
            <= s.len(),
        decode::decoded_mapping(s, key_type, value_type, n, depth) != Err::<
            (Column, nat),
            DecodeError,
        >(decode::truncated()) ==> decode::decoded_mapping(s + rest, key_type, value_type, n, depth)
            == decode::decoded_mapping(s, key_type, value_type, n, depth),
    decreases 34 - depth, 1nat,
{
    lemma_offsets_extend(s, rest, n, DecodeError::MapOffsets);
    if let Ok((v, used)) = decode::offsets(s, n, DecodeError::MapOffsets) {
        let total = decode::last_offset(v);
        lemma_skip_extends(s, rest, used as int);
        decoding_ignores_what_follows(s.skip(used as int), rest, key_type, total, depth);
        if let Ok((keys, k)) = decode::decoded(s.skip(used as int), key_type, total, depth) {
            lemma_skip_extends(s, rest, (used + k) as int);
            decoding_ignores_what_follows(
                s.skip((used + k) as int),
                rest,
                value_type,
                total,
                depth,
            );
        }
    }
}

proof fn lemma_fields_extend(s: Seq<u8>, rest: Seq<u8>, types: Seq<Type>, n: nat, depth: nat)
    requires
        depth <= 33,
    ensures
        decode::decoded_fields(s, types, n, depth) matches Ok((v, used)) ==> used <= s.len()
            && v.len() == types.len(),
        decode::decoded_fields(s, types, n, depth) != Err::<(Seq<Column>, nat), DecodeError>(
            decode::truncated(),
        ) ==> decode::decoded_fields(s + rest, types, n, depth) == decode::decoded_fields(
            s,
            types,
            n,
            depth,
        ),
    decreases 34 - depth, 1 + types.len(),
{
    if types.len() > 0 {
        lemma_fields_extend(s, rest, types.drop_last(), n, depth);
        if let Ok((v, used)) = decode::decoded_fields(s, types.drop_last(), n, depth) {
            lemma_skip_extends(s, rest, used as int);
            decoding_ignores_what_follows(s.skip(used as int), rest, types.last(), n, depth);
        }
    }
}

proof fn lemma_alternatives_extend(
    s: Seq<u8>,
    rest: Seq<u8>,
    types: Seq<Type>,
    d: Seq<u8>,
    depth: nat,
)
    requires
        depth <= 33,
    ensures
        decode::alternatives_span(s, types, d, depth) matches Ok(used) ==> used <= s.len(),
        decode::alternatives_span(s, types, d, depth) != Err::<nat, DecodeError>(
            decode::truncated(),
        ) ==> decode::alternatives_span(s + rest, types, d, depth) == decode::alternatives_span(
            s,
            types,
            d,
            depth,
        ),
    decreases 34 - depth, 1 + types.len(),
{
    if types.len() > 0 {
        lemma_alternatives_extend(s, rest, types.drop_last(), d, depth);
        if let Ok(used) = decode::alternatives_span(s, types.drop_last(), d, depth) {
            lemma_skip_extends(s, rest, used as int);
            decoding_ignores_what_follows(
                s.skip(used as int),
                rest,
                types.last(),
                decode::count_of(d, types.len() - 1),
                depth,
            );
        }
    }
}

proof fn lemma_variant_extends(s: Seq<u8>, rest: Seq<u8>, types: Seq<Type>, n: nat, depth: nat)
    requires
        depth <= 33,
    ensures
        decode::variant_span(s, types, n, depth) matches Ok(used) ==> used <= s.len(),
        decode::variant_span(s, types, n, depth) != Err::<nat, DecodeError>(decode::truncated())
            ==> decode::variant_span(s + rest, types, n, depth) == decode::variant_span(
            s,
            types,
            n,
            depth,
        ),
    decreases 34 - depth, 2 + types.len(),
{
    if s.len() >= 8 {
        assert((s + rest).take(8) =~= s.take(8));
        if s.len() >= 8 + n {
            lemma_subrange_extends(s, rest, 8, (8 + n) as int);
            lemma_skip_extends(s, rest, (8 + n) as int);
            lemma_alternatives_extend(
                s.skip((8 + n) as int),
                rest,
                types,
                s.subrange(8, (8 + n) as int),
                depth,
            );
        }
    }
}

proof fn lemma_dynamic_types_extend(s: Seq<u8>, rest: Seq<u8>, k: nat, levels: nat)
    ensures
        decode::dynamic_types(s, k, levels) matches Ok((types, before, used)) ==> used <= s.len()
            && types.len() == k && before <= k,
        decode::dynamic_types(s, k, levels) != Err::<(Seq<Type>, nat, nat), DecodeError>(
            decode::truncated(),
        ) ==> decode::dynamic_types(s + rest, k, levels) == decode::dynamic_types(s, k, levels),
    decreases k,
{
    if k > 0 {
        lemma_dynamic_types_extend(s, rest, (k - 1) as nat, levels);
        if let Ok((types, before, used)) = decode::dynamic_types(s, (k - 1) as nat, levels) {
            lemma_skip_extends(s, rest, used as int);
            lemma_utf8_extends(s.skip(used as int), rest);
        }
    }
}

proof fn lemma_varuint_extends(s: Seq<u8>, rest: Seq<u8>)
    ensures
        wire::varuint(s) matches Ok((_, used)) ==> used <= s.len(),
        wire::varuint(s) != Err::<(nat, nat), WireError>(WireError::Truncated) ==> wire::varuint(
            s + rest,
        ) == wire::varuint(s),
{
    wire::lemma_varuint_bound(s, 0);
    if wire::varuint(s) != Err::<(nat, nat), WireError>(WireError::Truncated) {
        wire::lemma_varuint_extends(s, rest, 0);
    }
}

proof fn lemma_dynamic_head_extends(s: Seq<u8>, rest: Seq<u8>, levels: nat)
    ensures
        decode::dynamic_head(s, levels) matches Ok((_, used)) ==> used <= s.len(),
        decode::dynamic_head(s, levels) != Err::<(Seq<Type>, nat), DecodeError>(
            decode::truncated(),
        ) ==> decode::dynamic_head(s + rest, levels) == decode::dynamic_head(s, levels),
{
    if s.len() >= 8 {
        assert((s + rest).take(8) =~= s.take(8));
        lemma_skip_extends(s, rest, 8);
        let version = wire::le_nat(s.take(8));
        lemma_varuint_extends(s.skip(8), rest);
        let first: Result<(nat, nat), WireError> = if version == 1 {
            wire::varuint(s.skip(8))
        } else {
            Ok((0, 0))
        };
        if let Ok((_, a)) = first {
            lemma_skip_extends(s, rest, (8 + a) as int);
            lemma_varuint_extends(s.skip((8 + a) as int), rest);
            if let Ok((k, b)) = wire::varuint(s.skip((8 + a) as int)) {
                lemma_skip_extends(s, rest, (8 + a + b) as int);
                lemma_dynamic_types_extend(s.skip((8 + a + b) as int), rest, k, levels);
            }
        }
    }
}

proof fn lemma_dynamic_extends(s: Seq<u8>, rest: Seq<u8>, n: nat, depth: nat)
    requires
        depth <= 33,
    ensures
        decode::dynamic_span(s, n, depth) matches Ok(used) ==> used <= s.len(),
        decode::dynamic_span(s, n, depth) != Err::<nat, DecodeError>(decode::truncated())
            ==> decode::dynamic_span(s + rest, n, depth) == decode::dynamic_span(s, n, depth),
    decreases 34 - depth, 1000nat,
{
    let levels = (33 - depth) as nat;
    lemma_dynamic_head_extends(s, rest, levels);
    if let Ok((types, head)) = decode::dynamic_head(s, levels) {
        lemma_skip_extends(s, rest, head as int);
        if types.len() <= 255 {
            lemma_variant_extends(s.skip(head as int), rest, types, n, depth);
        }
    }
}

proof fn lemma_low_cardinality_extends(s: Seq<u8>, rest: Seq<u8>, inner: Type, n: nat, depth: nat)
    requires
        depth <= 33,
    ensures
        decode::decoded_low_cardinality(s, inner, n, depth) matches Ok((_, used)) ==> used
            <= s.len(),
        decode::decoded_low_cardinality(s, inner, n, depth) != Err::<(Column, nat), DecodeError>(
            decode::truncated(),
        ) ==> decode::decoded_low_cardinality(s + rest, inner, n, depth)
            == decode::decoded_low_cardinality(s, inner, n, depth),
    decreases 34 - depth, 1nat,
{
    if n <= usize::MAX && s.len() >= 16 {
        lemma_subrange_extends(s, rest, 8, 16);
        let flags = wire::le_nat(s.subrange(8, 16));
        let dict_type = decode::dictionary_type(inner).0;
        if s.len() >= 24 {
            lemma_subrange_extends(s, rest, 16, 24);
            lemma_skip_extends(s, rest, 24);
            let keys = wire::le_nat(s.subrange(16, 24));
            decoding_ignores_what_follows(s.skip(24), rest, dict_type, keys, depth);
            if let Ok((dict, used)) = decode::decoded(s.skip(24), dict_type, keys, depth) {
                if s.len() >= 32 + used {
                    lemma_subrange_extends(s, rest, (24 + used) as int, (32 + used) as int);
                    lemma_skip_extends(s, rest, (32 + used) as int);
                    lemma_scalars_extend(
                        s.skip((32 + used) as int),
                        rest,
                        n,
                        decode::index_layout(flags % 4).1,
                        false,
                    );
                }
            }
        }
    }
}

/// Numbers that never decrease.
pub open spec fn nondecreasing(v: Seq<u64>) -> bool {
    forall|i: int, j: int| 0 <= i <= j < v.len() ==> v[i] <= v[j]
}

/// The unsigned numbers that may index a dictionary: what they are called and their width.
pub open spec fn is_index_kind(kind: ScalarKind, width: nat) -> bool {
    exists|code: nat| code < 4 && #[trigger] decode::index_layout(code) == (kind, width)
}

/// A column is a well-formed column of type `t` with `n` rows, at a depth of `depth`
/// composite types: as many values as there are rows, each in the range of its type,
/// offsets that never decrease and children of the length that the offsets give.
pub open spec fn well_formed(c: Column, t: Type, n: nat, depth: nat) -> bool
    decreases 34 - depth, 0nat,
{
    depth <= MAX_DECODE_DEPTH && n <= usize::MAX && if decode::scalar_layout(t) is Some {
        let (kind, width, signed) = decode::scalar_layout(t)->0;
        c matches Column::Scalars(k, v) && k == kind && well_formed_scalars(v, n, width, signed)
    } else if decode::wide_layout(t) is Some {
        let (kind, width) = decode::wide_layout(t)->0;
        c matches Column::Wides(k, v) && k == kind && v.len() == n && (width == 32 ==> n * width
            <= usize::MAX) && forall|i: int| 0 <= i < n ==> (#[trigger] v[i]).len() == width
    } else if decode::opaque_layout(t) is Some {
        c == Column::Unsupported((decode::opaque_layout(t)->0).0)
    } else {
        match t {
            Type::Plain(ColumnType::FixedString(w)) => c matches Column::FixedStrings {
                width,
                bytes,
            } && width == w && bytes.len() == w * n && w * n <= usize::MAX,
            Type::Plain(_) | Type::DateTime64 { .. } | Type::Json(_) => c matches Column::Strings(v)
                && v.len() == n && forall|i: int|
                0 <= i < n ==> (#[trigger] v[i]).len() <= MAX_STRING_SIZE,
            Type::Variant { name, .. } => c == Column::Unsupported(name),
            Type::Dynamic(name) => c == Column::Unsupported(name),
            Type::Nullable(inner) => well_formed_nullable(c, *inner, n, depth + 1),
            Type::Array(inner) => well_formed_array(c, *inner, n, depth + 1),
            Type::Tuple(types) => c matches Column::Tuple(fields) && well_formed_fields(
                fields,
                types,
                n,
                depth + 1,
            ),
            Type::Mapping(key_type, value_type) => well_formed_mapping(
                c,
                *key_type,
                *value_type,
                n,
                depth + 1,
            ),
            Type::LowCardinality(inner) => well_formed_low_cardinality(c, *inner, n, depth + 1),
            Type::SimpleAggregateFunction(inner) => well_formed(c, *inner, n, depth + 1),
        }
    }
}

/// A column of `n` nullable values.
pub open spec fn well_formed_nullable(c: Column, inner: Type, n: nat, depth: nat) -> bool
    decreases 34 - depth, 1nat,
{
    c matches Column::Nullable { mask, child } && mask.len() == n && well_formed(
        *child,
        inner,
        n,
        depth,
    )
}

/// A column of `n` arrays.
pub open spec fn well_formed_array(c: Column, inner: Type, n: nat, depth: nat) -> bool
    decreases 34 - depth, 1nat,
{
    c matches Column::Array { offsets, child } && offsets.len() == n && nondecreasing(offsets)
        && well_formed(*child, inner, decode::last_offset(offsets), depth)
}

/// A column of `n` maps.
pub open spec fn well_formed_mapping(
    c: Column,
    key_type: Type,
    value_type: Type,
    n: nat,
    depth: nat,
) -> bool
    decreases 34 - depth, 1nat,
{
    c matches Column::Mapping { offsets, keys, values } && offsets.len() == n && nondecreasing(
        offsets,
    ) && well_formed(*keys, key_type, decode::last_offset(offsets), depth) && well_formed(
        *values,
        value_type,
        decode::last_offset(offsets),
        depth,
    )
}

/// A column of `n` indices with their dictionary, which is well-formed for as many rows
/// as it counts.
pub open spec fn well_formed_low_cardinality(c: Column, inner: Type, n: nat, depth: nat) -> bool
    decreases 34 - depth, 1nat,
{
    c matches Column::LowCardinality { dict, indices, is_nullable_inner } && is_nullable_inner
        == decode::dictionary_type(inner).1 && well_formed_indices(*indices, n) && (counts_rows(
        decode::dictionary_type(inner).0,
    ) ==> decode::rows_of(*dict) <= u64::MAX && well_formed(
        *dict,
        decode::dictionary_type(inner).0,
        decode::rows_of(*dict),
        depth,
    ))
}

/// A list of `n` numbers in the range of a scalar whose column fits in memory.
pub open spec fn well_formed_scalars(v: Seq<int>, n: nat, width: nat, signed: bool) -> bool {
    v.len() == n && n * width <= usize::MAX && forall|i: int|
        0 <= i < n ==> wire::fits(#[trigger] v[i], width, signed)
}

/// A column of `n` indices into a dictionary.
pub open spec fn well_formed_indices(c: Column, n: nat) -> bool {
    c matches Column::Scalars(kind, v) && exists|width: nat| #[trigger]
        is_index_kind(kind, width) && well_formed_scalars(v, n, width, false)
}

/// The fields of a tuple, each well-formed for its type.
pub open spec fn well_formed_fields(fields: Seq<Column>, types: Seq<Type>, n: nat, depth: nat) -> bool
    decreases 34 - depth, 1 + types.len(),
{
    fields.len() == types.len() && (types.len() > 0 ==> well_formed_fields(
        fields.drop_last(),
        types.drop_last(),
        n,
        depth,
    ) && well_formed(fields.last(), types.last(), n, depth))
}

proof fn lemma_with_sign_fits(s: Seq<u8>, width: nat, signed: bool)
    requires
        s.len() == width,
    ensures
        wire::fits(wire::with_sign(wire::le_nat(s), width, signed), width, signed),
        wire::without_sign(wire::with_sign(wire::le_nat(s), width, signed), width) == wire::le_nat(
            s,
        ),
{
    wire::lemma_le_nat_bound(s);
}

proof fn lemma_scalars_well_formed(s: Seq<u8>, n: nat, width: nat, signed: bool)
    ensures
        decode::scalars(s, n, width, signed) matches Ok((v, used)) ==> well_formed_scalars(
            v,
            n,
            width,
            signed,
        ),
{
    if let Ok((v, used)) = decode::scalars(s, n, width, signed) {
        assert forall|i: int| 0 <= i < n implies wire::fits(#[trigger] v[i], width, signed) by {
            assert(0 <= i * width && i * width + width <= n * width) by (nonlinear_arith)
                requires
                    0 <= i < n,
            ;
            lemma_with_sign_fits(s.subrange(i * width, i * width + width), width, signed);
        }
    }
}

proof fn lemma_strings_well_formed(s: Seq<u8>, n: nat)
    ensures
        decode::strings(s, n) matches Ok((v, used)) ==> v.len() == n && forall|i: int|
            0 <= i < n ==> (#[trigger] v[i]).len() <= MAX_STRING_SIZE,
    decreases n,
{
    if n > 0 {
        lemma_strings_well_formed(s, (n - 1) as nat);
    }
}

proof fn lemma_offsets_well_formed(s: Seq<u8>, n: nat, bad: DecodeError)
    ensures
        decode::offsets(s, n, bad) matches Ok((v, used)) ==> v.len() == n && nondecreasing(v)
            && used == 8 * n && decode::last_offset(v) <= u64::MAX,
    decreases n,
{
    if n > 0 {
        lemma_offsets_well_formed(s, (n - 1) as nat, bad);
        if let Ok((v, used)) = decode::offsets(s, (n - 1) as nat, bad) {
            if used + 8 <= s.len() {
                wire::lemma_le_nat_bound(s.subrange(used as int, (used + 8) as int));
                wire::lemma_pow256_values();
                assert(v.len() > 0 ==> forall|i: int|
                    0 <= i < v.len() ==> #[trigger] v[i] <= v[v.len() - 1]);
            }
        }
    }
}

/// Every column that decodes is a well-formed column of its type, with the number of rows
/// that was asked for.
pub proof fn decoded_columns_are_well_formed(s: Seq<u8>, t: Type, n: nat, depth: nat)
    ensures
        decode::decoded(s, t, n, depth) matches Ok((c, _)) ==> well_formed(c, t, n, depth),
    decreases 34 - depth, 0nat,
{
    if depth > MAX_DECODE_DEPTH || n > usize::MAX {
    } else if decode::scalar_layout(t) is Some {
        let (kind, width, signed) = decode::scalar_layout(t)->0;
        lemma_scalars_well_formed(s, n, width, signed);
    } else if decode::wide_layout(t) is Some {
        let (kind, width) = decode::wide_layout(t)->0;
        if let Ok((v, used)) = decode::blobs(s, n, width) {
            assert forall|i: int| 0 <= i < n implies (#[trigger] v[i]).len() == width by {
                assert(0 <= i * width && i * width + width <= n * width) by (nonlinear_arith)
                    requires
                        0 <= i < n,
                ;
            }
        }
    } else if decode::opaque_layout(t) is Some {
    } else {
        match t {
            Type::Plain(ColumnType::FixedString(width)) => {
            },
            Type::Plain(_) | Type::DateTime64 { .. } | Type::Json(_) => {
                lemma_strings_well_formed(s, n);
            },
            Type::Variant { .. } | Type::Dynamic(_) => {},
            Type::Nullable(inner) => {
                lemma_nullable_well_formed(s, *inner, n, depth + 1);
            },
            Type::Array(inner) => {
                lemma_array_well_formed(s, *inner, n, depth + 1);
            },
            Type::Tuple(types) => {
                lemma_fields_well_formed(s, types, n, depth + 1);
            },
            Type::Mapping(key_type, value_type) => {
                lemma_mapping_well_formed(s, *key_type, *value_type, n, depth + 1);
            },
            Type::LowCardinality(inner) => {
                lemma_low_cardinality_well_formed(s, *inner, n, depth + 1);
            },
            Type::SimpleAggregateFunction(inner) => {
                decoded_columns_are_well_formed(s, *inner, n, depth + 1);
            },
        }
    }
}

proof fn lemma_nullable_well_formed(s: Seq<u8>, inner: Type, n: nat, depth: nat)
    requires
        depth <= 33,
    ensures
        decode::decoded_nullable(s, inner, n, depth) matches Ok((c, _)) ==> well_formed_nullable(
            c,
            inner,
            n,
            depth,
        ),
    decreases 34 - depth, 1nat,
{
    decoded_columns_are_well_formed(s.skip(n as int), inner, n, depth);
}

proof fn lemma_array_well_formed(s: Seq<u8>, inner: Type, n: nat, depth: nat)
    requires
        depth <= 33,
    ensures
        decode::decoded_array(s, inner, n, depth) matches Ok((c, _)) ==> well_formed_array(
            c,
            inner,
            n,
            depth,
        ),
    decreases 34 - depth, 1nat,
{
    lemma_offsets_well_formed(s, n, DecodeError::ArrayOffsets);
    if let Ok((v, used)) = decode::offsets(s, n, DecodeError::ArrayOffsets) {
        decoded_columns_are_well_formed(s.skip(used as int), inner, decode::last_offset(v), depth);
    }
}

proof fn lemma_mapping_well_formed(
    s: Seq<u8>,
    key_type: Type,
    value_type: Type,
    n: nat,
    depth: nat,
)
    requires
        depth <= 33,
    ensures
        decode::decoded_mapping(s, key_type, value_type, n, depth) matches Ok((c, _))
            ==> well_formed_mapping(c, key_type, value_type, n, depth),
    decreases 34 - depth, 1nat,
{
    lemma_offsets_well_formed(s, n, DecodeError::MapOffsets);
    if let Ok((v, used)) = decode::offsets(s, n, DecodeError::MapOffsets) {
        let total = decode::last_offset(v);
        decoded_columns_are_well_formed(s.skip(used as int), key_type, total, depth);
        if let Ok((keys, k)) = decode::decoded(s.skip(used as int), key_type, total, depth) {
            decoded_columns_are_well_formed(s.skip((used + k) as int), value_type, total, depth);
        }
    }
}

proof fn lemma_fields_well_formed(s: Seq<u8>, types: Seq<Type>, n: nat, depth: nat)
    requires
        depth <= 33,
    ensures
        decode::decoded_fields(s, types, n, depth) matches Ok((fields, _)) ==> well_formed_fields(
            fields,
            types,
            n,
            depth,
        ),
    decreases 34 - depth, 1 + types.len(),
{
    if types.len() > 0 {
        lemma_fields_well_formed(s, types.drop_last(), n, depth);
        if let Ok((fields, used)) = decode::decoded_fields(s, types.drop_last(), n, depth) {
            decoded_columns_are_well_formed(s.skip(used as int), types.last(), n, depth);
            if let Ok((field, k)) = decode::decoded(s.skip(used as int), types.last(), n, depth) {
                assert(fields.push(field).drop_last() =~= fields);
            }
        }
    }
}

proof fn lemma_low_cardinality_well_formed(s: Seq<u8>, inner: Type, n: nat, depth: nat)
    requires
        1 <= depth <= 33,
    ensures
        decode::decoded_low_cardinality(s, inner, n, depth) matches Ok((c, _))
            ==> well_formed_low_cardinality(c, inner, n, depth),
    decreases 34 - depth, 1nat,
{
    if let Ok((c, total)) = decode::decoded_low_cardinality(s, inner, n, depth) {
        let flags = wire::le_nat(s.subrange(8, 16));
        let dict_type = decode::dictionary_type(inner).0;
        let keys = wire::le_nat(s.subrange(16, 24));
        wire::lemma_le_nat_bound(s.subrange(16, 24));
        wire::lemma_pow256_values();
        decoded_columns_are_well_formed(s.skip(24), dict_type, keys, depth);
        if let Ok((dict, used)) = decode::decoded(s.skip(24), dict_type, keys, depth) {
            let (kind, width) = decode::index_layout(flags % 4);
            lemma_scalars_well_formed(s.skip((32 + used) as int), n, width, false);
            assert(is_index_kind(kind, width));
            if counts_rows(dict_type) {
                row_count_is_the_number_of_rows(dict, dict_type, keys, depth);
            }
        }
    }
}

/// The types whose columns tell how many rows they have: all but those that are not
/// decoded, those of width zero and tuples that start with such a type.
pub open spec fn counts_rows(t: Type) -> bool
    decreases t,
{
    match t {
        Type::Plain(ColumnType::FixedString(width)) => width > 0,
        Type::Tuple(types) => types.len() > 0 && counts_rows(types[0]),
        Type::SimpleAggregateFunction(inner) => counts_rows(*inner),
        Type::Variant { .. } | Type::Dynamic(_) => false,
        t => decode::opaque_layout(t) is None,
    }
}

/// A well-formed column counts as many rows as were decoded.
pub proof fn row_count_is_the_number_of_rows(c: Column, t: Type, n: nat, depth: nat)
    requires
        well_formed(c, t, n, depth),
        counts_rows(t),
    ensures
        decode::rows_of(c) == n,
    decreases 34 - depth, 0nat,
{
    match t {
        Type::Plain(ColumnType::FixedString(w)) => {
            let width = w as nat;
            assert((width * n) / width == n) by (nonlinear_arith)
                requires
                    width > 0,
            ;
            assert(c matches Column::FixedStrings { width: k, bytes } && k == width && bytes.len()
                == width * n);
        },
        Type::Nullable(inner) => {
            assert(well_formed_nullable(c, *inner, n, depth + 1));
        },
        Type::Array(inner) => {
            assert(well_formed_array(c, *inner, n, depth + 1));
        },
        Type::Mapping(k, v) => {
            assert(well_formed_mapping(c, *k, *v, n, depth + 1));
        },
        Type::Tuple(types) => {
            assert(well_formed_fields(c->Tuple_0, types, n, depth + 1));
            lemma_first_field(c->Tuple_0, types, n, depth + 1);
            row_count_is_the_number_of_rows(c->Tuple_0[0], types[0], n, depth + 1);
        },
        Type::SimpleAggregateFunction(inner) => {
            row_count_is_the_number_of_rows(c, *inner, n, depth + 1);
        },
        Type::LowCardinality(inner) => {
            assert(well_formed_low_cardinality(c, *inner, n, depth + 1));
            reveal_with_fuel(decode::rows_of, 2);
        },
        _ => {},
    }
}

proof fn lemma_first_field(fields: Seq<Column>, types: Seq<Type>, n: nat, depth: nat)
    requires
        well_formed_fields(fields, types, n, depth),
        types.len() > 0,
    ensures
        well_formed(fields[0], types[0], n, depth),
    decreases types.len(),
{
    if types.len() > 1 {
        lemma_first_field(fields.drop_last(), types.drop_last(), n, depth);
    }
}

/// A block that was cut short.
pub open spec fn cut_short() -> decode::BlockFault {
    decode::BlockFault::Column(decode::truncated())
}

proof fn lemma_utf8_extends(s: Seq<u8>, rest: Seq<u8>)
    ensures
        wire::utf8_string(s) matches Ok((_, used)) ==> used <= s.len(),
        wire::utf8_string(s) != Err::<(Seq<char>, nat), WireError>(WireError::Truncated)
            ==> wire::utf8_string(s + rest) == wire::utf8_string(s),
{
    if wire::string_bytes(s) != Err::<(Seq<u8>, nat), WireError>(WireError::Truncated) {
        wire::lemma_string_extends(s, rest);
    }
}

proof fn lemma_entry_extends(s: Seq<u8>, rest: Seq<u8>, rows: nat, flagged: bool)
    ensures
        decode::decoded_entry(s, rows, flagged) matches Ok((_, used)) ==> used <= s.len(),
        decode::decoded_entry(s, rows, flagged) != Err::<
            (decode::BlockColumn, nat),
            decode::BlockFault,
        >(cut_short()) ==> decode::decoded_entry(s + rest, rows, flagged) == decode::decoded_entry(
            s,
            rows,
            flagged,
        ),
{
    reveal(decode::decoded_entry);
    lemma_utf8_extends(s, rest);
    if let Ok((name, a)) = wire::utf8_string(s) {
        lemma_skip_extends(s, rest, a as int);
        lemma_utf8_extends(s.skip(a as int), rest);
        if let Ok((type_text, b)) = wire::utf8_string(s.skip(a as int)) {
            let head = if flagged {
                a + b + 1
            } else {
                a + b
            };
            if head <= s.len() {
                lemma_skip_extends(s, rest, head as int);
                reveal(decode::typed_column);
                if let Some(t) = column_type::type_named(
                    type_text,
                    column_type::MAX_TYPE_LEVELS as nat,
                ) {
                    decoding_ignores_what_follows(s.skip(head as int), rest, t, rows, 0);
                }
            }
        }
    }
}

/// Decoding a block consumes no more than there is, and whether and as what it decodes
/// does not depend on the bytes that follow it. So a reader that decodes again with more
/// bytes, whenever a block was cut short, arrives at what it would have decoded from all
/// of them.
pub proof fn block_decoding_ignores_what_follows(
    s: Seq<u8>,
    rest: Seq<u8>,
    columns: nat,
    rows: nat,
    flagged: bool,
)
    ensures
        decode::decoded_columns(s, columns, rows, flagged) matches Ok((_, used)) ==> used
            <= s.len(),
        decode::decoded_columns(s, columns, rows, flagged) != Err::<
            (Seq<decode::BlockColumn>, nat),
            decode::BlockFault,
        >(cut_short()) ==> decode::decoded_columns(s + rest, columns, rows, flagged)
            == decode::decoded_columns(s, columns, rows, flagged),
    decreases columns,
{
    if columns > 0 {
        block_decoding_ignores_what_follows(s, rest, (columns - 1) as nat, rows, flagged);
        if let Ok((v, used)) = decode::decoded_columns(s, (columns - 1) as nat, rows, flagged) {
            lemma_skip_extends(s, rest, used as int);
            lemma_entry_extends(s.skip(used as int), rest, rows, flagged);
        }
    }
}

} // verus!
