use clickhouse::error::Error;
use clickhouse::native::column_type::ColumnType;
use clickhouse::native::decode::{
    decode_block, decode_column, DecodedBlock, DecodedColumn, MAX_DECODE_DEPTH,
};
use clickhouse::native::wire::{read_string, read_var_uint, write_var_uint};

const REV: u64 = 54459;

fn write_string(out: &mut Vec<u8>, s: &[u8]) {
    write_var_uint(out, s.len() as u64);
    out.extend_from_slice(s);
}

fn one_column(name: &str, type_text: &str, payload: &[u8]) -> Vec<u8> {
    let mut buf = Vec::new();
    write_string(&mut buf, name.as_bytes());
    write_string(&mut buf, type_text.as_bytes());
    buf.push(0u8);
    buf.extend_from_slice(payload);
    buf
}

fn decode_one(bytes: &[u8], num_rows: u64) -> DecodedBlock {
    let (block, next) = decode_block(bytes, 0, 1, num_rows, REV).unwrap();
    assert_eq!(next, bytes.len());
    block
}

fn decode_one_typed(type_text: &str, num_rows: u64, payload: &[u8]) -> DecodedColumn {
    let mut block = decode_one(&one_column("c", type_text, payload), num_rows);
    block.columns.pop().unwrap()
}

fn block_error(bytes: &[u8], num_rows: u64) -> Error {
    decode_block(bytes, 0, 1, num_rows, REV).unwrap_err().into_error()
}

#[test]
fn roundtrip_uint64() {
    let payload: Vec<u8> = (0u64..5).flat_map(|v| v.to_le_bytes()).collect();
    let block = decode_one(&one_column("n", "UInt64", &payload), 5);
    match &block.columns[0] {
        DecodedColumn::UInt64(values) => assert_eq!(values, &vec![0u64, 1, 2, 3, 4]),
        other => panic!("expected UInt64, got {other:?}"),
    }
    assert_eq!(block.schema[0], ("n".to_string(), "UInt64".to_string()));
    assert_eq!(block.num_rows, 5);
}

#[test]
fn roundtrip_int32_signed() {
    let payload: Vec<u8> = [-3i32, -1, 0, 7, 99].iter().flat_map(|v| v.to_le_bytes()).collect();
    let block = decode_one(&one_column("v", "Int32", &payload), 5);
    match &block.columns[0] {
        DecodedColumn::Int32(values) => assert_eq!(values, &vec![-3i32, -1, 0, 7, 99]),
        other => panic!("expected Int32, got {other:?}"),
    }
}

#[test]
fn roundtrip_string() {
    let strings = ["", "hello", "wide \u{1F600}", "trailing"];
    let mut payload = Vec::new();
    for s in strings {
        write_string(&mut payload, s.as_bytes());
    }
    let block = decode_one(&one_column("s", "String", &payload), strings.len() as u64);
    match &block.columns[0] {
        DecodedColumn::String(values) => {
            let decoded: Vec<&str> =
                values.iter().map(|v| std::str::from_utf8(v).unwrap()).collect();
            assert_eq!(decoded, strings);
        }
        other => panic!("expected String, got {other:?}"),
    }
}

#[test]
fn roundtrip_fixed_string() {
    let raw = b"abcdefghij";
    let block = decode_one(&one_column("f", "FixedString(5)", raw), 2);
    match &block.columns[0] {
        DecodedColumn::FixedString { width, bytes } => {
            assert_eq!(*width, 5);
            assert_eq!(bytes, raw);
        }
        other => panic!("expected FixedString, got {other:?}"),
    }
}

#[test]
fn roundtrip_nullable_uint8() {
    let block = decode_one(&one_column("n", "Nullable(UInt8)", &[0, 1, 0, 42, 0, 7]), 3);
    match &block.columns[0] {
        DecodedColumn::Nullable { mask, child } => {
            assert_eq!(mask, &vec![0u8, 1, 0]);
            match child.as_ref() {
                DecodedColumn::UInt8(values) => assert_eq!(values, &vec![42u8, 0, 7]),
                other => panic!("expected UInt8 child, got {other:?}"),
            }
        }
        other => panic!("expected Nullable, got {other:?}"),
    }
}

#[test]
fn roundtrip_array_uint64() {
    let payload: Vec<u8> =
        [3u64, 3, 4, 1, 2, 3, 42].iter().flat_map(|v| v.to_le_bytes()).collect();
    let block = decode_one(&one_column("a", "Array(UInt64)", &payload), 3);
    match &block.columns[0] {
        DecodedColumn::Array { offsets, child } => {
            assert_eq!(offsets, &vec![3u64, 3, 4]);
            match child.as_ref() {
                DecodedColumn::UInt64(values) => assert_eq!(values, &vec![1u64, 2, 3, 42]),
                other => panic!("expected UInt64 child, got {other:?}"),
            }
        }
        other => panic!("expected Array, got {other:?}"),
    }
}

fn lc_to_strings(dict: &DecodedColumn, indices: &DecodedColumn) -> Vec<String> {
    let dict_strings = match dict {
        DecodedColumn::String(s) => s,
        _ => panic!("dict must be String"),
    };
    let idxs: Vec<usize> = match indices {
        DecodedColumn::UInt8(v) => v.iter().map(|&x| x as usize).collect(),
        DecodedColumn::UInt16(v) => v.iter().map(|&x| x as usize).collect(),
        DecodedColumn::UInt32(v) => v.iter().map(|&x| x as usize).collect(),
        DecodedColumn::UInt64(v) => v.iter().map(|&x| x as usize).collect(),
        _ => panic!("indices must be unsigned int"),
    };
    idxs.into_iter()
        .map(|i| String::from_utf8(dict_strings[i].clone()).unwrap())
        .collect()
}

fn lc_string_payload(index_code: u8, dict: &[&str], idx: &[u64]) -> Vec<u8> {
    let mut p = Vec::new();
    p.extend_from_slice(&1u64.to_le_bytes());
    let flags = 0x200u64 | u64::from(index_code);
    p.extend_from_slice(&flags.to_le_bytes());
    p.extend_from_slice(&(dict.len() as u64).to_le_bytes());
    for s in dict {
        assert!(s.len() < 128, "test dict entries stay single-byte-len");
        p.push(s.len() as u8);
        p.extend_from_slice(s.as_bytes());
    }
    p.extend_from_slice(&(idx.len() as u64).to_le_bytes());
    for &i in idx {
        match index_code {
            0 => p.push(i as u8),
            1 => p.extend_from_slice(&(i as u16).to_le_bytes()),
            2 => p.extend_from_slice(&(i as u32).to_le_bytes()),
            3 => p.extend_from_slice(&i.to_le_bytes()),
            other => panic!("bad index code {other}"),
        }
    }
    p
}

#[test]
fn roundtrip_lowcardinality_string() {
    let strings = ["foo", "bar", "foo", "baz", "bar"];
    let payload = lc_string_payload(0, &["foo", "bar", "baz"], &[0, 1, 0, 2, 1]);
    let block = decode_one(&one_column("lc", "LowCardinality(String)", &payload), 5);
    match &block.columns[0] {
        DecodedColumn::LowCardinality { dict, indices, is_nullable_inner } => {
            assert!(!*is_nullable_inner);
            match dict.as_ref() {
                DecodedColumn::String(dict_strings) => {
                    let mut set: std::collections::HashSet<&[u8]> =
                        dict_strings.iter().map(Vec::as_slice).collect();
                    assert!(set.remove(b"foo".as_slice()));
                    assert!(set.remove(b"bar".as_slice()));
                    assert!(set.remove(b"baz".as_slice()));
                }
                other => panic!("expected String dict, got {other:?}"),
            }
            let reconstructed = lc_to_strings(dict.as_ref(), indices.as_ref());
            assert_eq!(reconstructed, strings);
        }
        other => panic!("expected LowCardinality, got {other:?}"),
    }
}

#[test]
fn rejects_unknown_column_type() {
    match block_error(&one_column("x", "DefinitelyNotAType", &[]), 0) {
        Error::BadResponse(msg) => {
            assert!(msg.contains("unknown column type"), "got: {msg}");
            assert_eq!(
                msg,
                "tcp: server announced unknown column type 'DefinitelyNotAType' for column 'x'"
            );
        }
        other => panic!("expected BadResponse, got {other:?}"),
    }
}

#[test]
fn rejects_nonzero_custom_serialization_flag() {
    let mut bytes = Vec::new();
    write_string(&mut bytes, b"x");
    write_string(&mut bytes, b"UInt8");
    bytes.push(7u8);
    match block_error(&bytes, 0) {
        Error::BadResponse(msg) => {
            assert!(msg.contains("custom serialization flag"), "got: {msg}");
            assert_eq!(
                msg,
                "tcp: column 'x' uses custom serialization flag 7 -- only normal (0) is supported"
            );
        }
        other => panic!("expected BadResponse, got {other:?}"),
    }
}

#[test]
fn row_count_matches_inner_buffers() {
    let payload: Vec<u8> = (0u32..8).flat_map(|v| v.to_le_bytes()).collect();
    let block = decode_one(&one_column("v", "UInt32", &payload), 8);
    assert_eq!(block.columns[0].row_count(), 8);
}

#[test]
fn parse_column_type_via_phase2() {
    for ty in [
        "UInt8",
        "UInt64",
        "Int32",
        "String",
        "FixedString(8)",
        "Nullable(UInt32)",
        "Array(UInt64)",
        "Tuple(UInt8, String)",
        "Map(String, UInt64)",
        "LowCardinality(String)",
        "LowCardinality(Nullable(String))",
        "DateTime",
        "DateTime64(3)",
        "UUID",
        "IPv4",
        "IPv6",
    ] {
        assert!(ColumnType::parse(ty).is_some(), "{ty}");
    }
}

#[test]
fn decode_column_rejects_excessive_nesting() {
    let mut ct = ColumnType::UInt8;
    for _ in 0..(MAX_DECODE_DEPTH + 5) {
        ct = ColumnType::Array(Box::new(ct));
    }
    match decode_column(&[], 0, &ct, 0, 0).unwrap_err().into_error() {
        Error::BadResponse(msg) => assert!(msg.contains("nesting"), "got: {msg}"),
        other => panic!("expected BadResponse, got {other:?}"),
    }
}

#[test]
fn lowcardinality_rejects_zero_flags() {
    let mut bytes = Vec::new();
    bytes.extend_from_slice(&1u64.to_le_bytes());
    bytes.extend_from_slice(&0u64.to_le_bytes());
    let ct = ColumnType::LowCardinality(Box::new(ColumnType::String));
    match decode_column(&bytes, 0, &ct, 1, 0).unwrap_err().into_error() {
        Error::BadResponse(msg) => assert!(msg.contains("neither"), "got: {msg}"),
        other => panic!("expected BadResponse, got {other:?}"),
    }
}

#[test]
fn roundtrip_int128() {
    let vals = [1i128, -2, i128::MAX, i128::MIN];
    let payload: Vec<u8> = vals.iter().flat_map(|v| v.to_le_bytes()).collect();
    match decode_one_typed("Int128", vals.len() as u64, &payload) {
        DecodedColumn::Int128(v) => assert_eq!(v, vals),
        other => panic!("expected Int128, got {other:?}"),
    }
}

#[test]
fn roundtrip_uint128() {
    let vals = [0u128, 1, u128::MAX];
    let payload: Vec<u8> = vals.iter().flat_map(|v| v.to_le_bytes()).collect();
    match decode_one_typed("UInt128", vals.len() as u64, &payload) {
        DecodedColumn::UInt128(v) => assert_eq!(v, vals),
        other => panic!("expected UInt128, got {other:?}"),
    }
}

#[test]
fn roundtrip_int256_raw_le() {
    let mut a = [0u8; 32];
    a[0] = 1;
    let mut b = [0u8; 32];
    b[31] = 0x80;
    let payload: Vec<u8> = a.iter().chain(b.iter()).copied().collect();
    match decode_one_typed("Int256", 2, &payload) {
        DecodedColumn::Int256(v) => assert_eq!(v, vec![a, b]),
        other => panic!("expected Int256, got {other:?}"),
    }
}

#[test]
fn roundtrip_decimal64_as_backing_int() {
    let vals = [12345i64, -67890, 0];
    let payload: Vec<u8> = vals.iter().flat_map(|v| v.to_le_bytes()).collect();
    match decode_one_typed("Decimal(18, 4)", vals.len() as u64, &payload) {
        DecodedColumn::Decimal64 { precision, scale, values } => {
            assert_eq!(values, vals);
            assert_eq!(precision, 18);
            assert_eq!(scale, 4);
        }
        other => panic!("expected Decimal64, got {other:?}"),
    }
}

#[test]
fn decimal_sized_form_implies_precision() {
    let vals = [1i64, 2, 3];
    let payload: Vec<u8> = vals.iter().flat_map(|v| v.to_le_bytes()).collect();
    match decode_one_typed("Decimal64(4)", vals.len() as u64, &payload) {
        DecodedColumn::Decimal64 { precision, scale, .. } => {
            assert_eq!(precision, 18, "Decimal64 implies precision 18");
            assert_eq!(scale, 4);
        }
        other => panic!("expected Decimal64, got {other:?}"),
    }
}

#[test]
fn datetime64_surfaces_precision_and_timezone() {
    let vals = [1_700_000_000_000i64, 0, -1];
    let payload: Vec<u8> = vals.iter().flat_map(|v| v.to_le_bytes()).collect();
    match decode_one_typed("DateTime64(3, 'UTC')", vals.len() as u64, &payload) {
        DecodedColumn::DateTime64 { precision, timezone, values } => {
            assert_eq!(values, vals);
            assert_eq!(precision, 3);
            assert_eq!(timezone.as_deref(), Some("UTC"));
        }
        other => panic!("expected DateTime64, got {other:?}"),
    }
    match decode_one_typed("DateTime64(9)", 0, &[]) {
        DecodedColumn::DateTime64 { precision, timezone, .. } => {
            assert_eq!(precision, 9);
            assert!(timezone.is_none());
        }
        other => panic!("expected DateTime64, got {other:?}"),
    }
}

#[test]
fn roundtrip_date32_signed_days() {
    let vals = [0i32, 19_000, -1];
    let payload: Vec<u8> = vals.iter().flat_map(|v| v.to_le_bytes()).collect();
    match decode_one_typed("Date32", vals.len() as u64, &payload) {
        DecodedColumn::Date32(v) => assert_eq!(v, vals),
        other => panic!("expected Date32, got {other:?}"),
    }
}

#[test]
fn roundtrip_float64_nan_inf() {
    let vals = [f64::NAN, f64::INFINITY, f64::NEG_INFINITY, 1.5];
    let payload: Vec<u8> = vals.iter().flat_map(|v| v.to_le_bytes()).collect();
    match decode_one_typed("Float64", vals.len() as u64, &payload) {
        DecodedColumn::Float64(bits) => {
            let v: Vec<f64> = bits.into_iter().map(f64::from_bits).collect();
            assert!(v[0].is_nan());
            assert_eq!(v[1], f64::INFINITY);
            assert_eq!(v[2], f64::NEG_INFINITY);
            assert_eq!(v[3], 1.5);
        }
        other => panic!("expected Float64, got {other:?}"),
    }
}

#[test]
fn lowcardinality_decodes_all_index_widths() {
    let dict = ["a", "b", "c"];
    let idx = [0u64, 1, 0, 2];
    for code in 0u8..=3 {
        let payload = lc_string_payload(code, &dict, &idx);
        match decode_one_typed("LowCardinality(String)", idx.len() as u64, &payload) {
            DecodedColumn::LowCardinality { dict, indices, is_nullable_inner } => {
                assert!(!is_nullable_inner, "code {code}");
                let got = lc_to_strings(dict.as_ref(), indices.as_ref());
                assert_eq!(got, vec!["a", "b", "a", "c"], "index code {code}");
                let width_ok = matches!(
                    (code, indices.as_ref()),
                    (0, DecodedColumn::UInt8(_))
                        | (1, DecodedColumn::UInt16(_))
                        | (2, DecodedColumn::UInt32(_))
                        | (3, DecodedColumn::UInt64(_))
                );
                assert!(width_ok, "wrong index variant for code {code}");
            }
            other => panic!("expected LowCardinality, got {other:?}"),
        }
    }
}

#[test]
fn lowcardinality_nullable_index_zero_is_null() {
    let dict = ["", "x", "y"];
    let idx = [0u64, 1, 0, 2];
    let payload = lc_string_payload(0, &dict, &idx);
    match decode_one_typed("LowCardinality(Nullable(String))", idx.len() as u64, &payload) {
        DecodedColumn::LowCardinality { dict, indices, is_nullable_inner } => {
            assert!(is_nullable_inner, "Nullable inner must be flagged");
            let idxs = match indices.as_ref() {
                DecodedColumn::UInt8(v) => v.clone(),
                other => panic!("expected UInt8 indices, got {other:?}"),
            };
            let nulls: Vec<bool> = idxs.iter().map(|&i| i == 0).collect();
            assert_eq!(nulls, vec![true, false, true, false]);
            match dict.as_ref() {
                DecodedColumn::String(d) => assert_eq!(d.len(), 3),
                other => panic!("expected String dict, got {other:?}"),
            }
        }
        other => panic!("expected LowCardinality, got {other:?}"),
    }
}

#[test]
fn roundtrip_nested_array_array_uint64() {
    let mut payload = Vec::new();
    for v in [2u64, 3] {
        payload.extend_from_slice(&v.to_le_bytes());
    }
    for v in [2u64, 3, 6] {
        payload.extend_from_slice(&v.to_le_bytes());
    }
    for v in [1u64, 2, 3, 4, 5, 6] {
        payload.extend_from_slice(&v.to_le_bytes());
    }
    match decode_one_typed("Array(Array(UInt64))", 2, &payload) {
        DecodedColumn::Array { offsets, child } => {
            assert_eq!(offsets, vec![2u64, 3]);
            match child.as_ref() {
                DecodedColumn::Array { offsets: inner_off, child: inner_child } => {
                    assert_eq!(inner_off, &vec![2u64, 3, 6]);
                    match inner_child.as_ref() {
                        DecodedColumn::UInt64(v) => assert_eq!(v, &vec![1u64, 2, 3, 4, 5, 6]),
                        other => panic!("expected UInt64, got {other:?}"),
                    }
                }
                other => panic!("expected inner Array, got {other:?}"),
            }
        }
        other => panic!("expected Array, got {other:?}"),
    }
}

#[test]
fn roundtrip_map_string_uint64() {
    let mut payload = Vec::new();
    for v in [2u64, 3] {
        payload.extend_from_slice(&v.to_le_bytes());
    }
    for s in ["a", "b", "c"] {
        payload.push(s.len() as u8);
        payload.extend_from_slice(s.as_bytes());
    }
    for v in [1u64, 2, 3] {
        payload.extend_from_slice(&v.to_le_bytes());
    }
    match decode_one_typed("Map(String, UInt64)", 2, &payload) {
        DecodedColumn::Mapping { offsets, keys, values } => {
            assert_eq!(offsets, vec![2u64, 3]);
            match keys.as_ref() {
                DecodedColumn::String(k) => {
                    let ks: Vec<&str> =
                        k.iter().map(|b| std::str::from_utf8(b).unwrap()).collect();
                    assert_eq!(ks, vec!["a", "b", "c"]);
                }
                other => panic!("expected String keys, got {other:?}"),
            }
            match values.as_ref() {
                DecodedColumn::UInt64(v) => assert_eq!(v, &vec![1u64, 2, 3]),
                other => panic!("expected UInt64 values, got {other:?}"),
            }
        }
        other => panic!("expected Map, got {other:?}"),
    }
}

#[test]
fn nullable_all_null_uint8() {
    let payload = vec![1u8, 1, 1, 0, 0, 0];
    match decode_one_typed("Nullable(UInt8)", 3, &payload) {
        DecodedColumn::Nullable { mask, child } => {
            assert_eq!(mask, vec![1u8, 1, 1]);
            match child.as_ref() {
                DecodedColumn::UInt8(v) => assert_eq!(v, &vec![0u8, 0, 0]),
                other => panic!("expected UInt8 child, got {other:?}"),
            }
        }
        other => panic!("expected Nullable, got {other:?}"),
    }
}

#[test]
fn fixed_string_preserves_nul_and_padding() {
    let raw = [b'a', 0, b'b', 0, b'a', b'b', 0, 0];
    match decode_one_typed("FixedString(4)", 2, &raw) {
        DecodedColumn::FixedString { width, bytes } => {
            assert_eq!(width, 4);
            assert_eq!(bytes, raw);
        }
        other => panic!("expected FixedString, got {other:?}"),
    }
}

#[test]
fn blocks_that_end_too_early_are_errors_of_the_connection() {
    let bytes = one_column("n", "UInt64", &[1, 2, 3]);
    assert!(matches!(block_error(&bytes, 1), Error::Other(s) if s == "early eof"));
    assert!(matches!(block_error(&[], 1), Error::Other(s) if s == "early eof"));
}

#[test]
fn what_follows_a_block_is_left_alone() {
    let mut bytes = one_column("n", "UInt8", &[1, 2]);
    let len = bytes.len();
    bytes.extend_from_slice(&[9, 9, 9]);
    let (block, next) = decode_block(&bytes, 0, 1, 2, REV).unwrap();
    assert_eq!(next, len);
    assert_eq!(block.columns[0].row_count(), 2);
}

#[test]
fn offsets_must_not_decrease() {
    let payload: Vec<u8> = [2u64, 1].iter().flat_map(|v| v.to_le_bytes()).collect();
    match block_error(&one_column("a", "Array(UInt8)", &payload), 2) {
        Error::BadResponse(msg) => assert_eq!(
            msg,
            "tcp: Array column offsets are not monotonically increasing"
        ),
        other => panic!("expected BadResponse, got {other:?}"),
    }
    match block_error(&one_column("a", "Map(UInt8, UInt8)", &payload), 2) {
        Error::BadResponse(msg) => assert_eq!(
            msg,
            "tcp: Map column offsets are not monotonically increasing"
        ),
        other => panic!("expected BadResponse, got {other:?}"),
    }
}

#[test]
fn dictionaries_must_be_announced_with_their_keys() {
    let mut payload = Vec::new();
    payload.extend_from_slice(&1u64.to_le_bytes());
    payload.extend_from_slice(&0x100u64.to_le_bytes());
    match block_error(&one_column("lc", "LowCardinality(String)", &payload), 1) {
        Error::BadResponse(msg) => assert!(msg.contains("global dictionary"), "got: {msg}"),
        other => panic!("expected BadResponse, got {other:?}"),
    }
    let payload = lc_string_payload(0, &["a"], &[0, 0]);
    match block_error(&one_column("lc", "LowCardinality(String)", &payload), 1) {
        Error::BadResponse(msg) => {
            assert_eq!(msg, "tcp: LowCardinality index count 2 != row count 1")
        }
        other => panic!("expected BadResponse, got {other:?}"),
    }
}

#[test]
fn older_servers_send_no_flag() {
    let mut bytes = Vec::new();
    write_string(&mut bytes, b"n");
    write_string(&mut bytes, b"UInt8");
    bytes.push(5);
    let (block, _) = decode_block(&bytes, 0, 1, 1, 54453).unwrap();
    match &block.columns[0] {
        DecodedColumn::UInt8(v) => assert_eq!(v, &vec![5u8]),
        other => panic!("expected UInt8, got {other:?}"),
    }
}

#[test]
fn tuples_hold_a_column_per_field() {
    let mut payload = vec![1u8, 2];
    write_string(&mut payload, b"x");
    write_string(&mut payload, b"yz");
    match decode_one_typed("Tuple(UInt8, String)", 2, &payload) {
        DecodedColumn::Tuple(fields) => {
            assert_eq!(fields.len(), 2);
            assert!(fields.iter().all(|f| f.row_count() == 2));
        }
        other => panic!("expected Tuple, got {other:?}"),
    }
}

#[test]
fn variable_length_integers_read_back() {
    for v in [0u64, 1, 127, 128, 300, u64::MAX] {
        let mut out = Vec::new();
        write_var_uint(&mut out, v);
        assert_eq!(read_var_uint(&out, 0).unwrap(), (v, out.len()));
    }
    assert!(read_var_uint(&[0x80], 0).is_err());
    let err = read_var_uint(&[0xff; 11], 0).unwrap_err().into_error();
    assert!(matches!(err, Error::BadResponse(_)));
}

#[test]
fn strings_are_limited_in_size() {
    let mut out = Vec::new();
    write_var_uint(&mut out, (1 << 30) + 1);
    let err = read_string(&out, 0).unwrap_err().into_error();
    assert!(matches!(err, Error::BadResponse(s) if s.contains("1073741825")));
}

#[test]
fn names_must_be_text() {
    let mut bytes = Vec::new();
    write_string(&mut bytes, &[0xff]);
    write_string(&mut bytes, b"UInt8");
    bytes.push(0);
    assert!(matches!(block_error(&bytes, 0), Error::BadResponse(_)));
}

fn unsupported_name(type_text: &str, num_rows: u64, payload: &[u8]) -> String {
    match decode_one_typed(type_text, num_rows, payload) {
        DecodedColumn::Unsupported(name) => name,
        other => panic!("expected Unsupported, got {other:?}"),
    }
}

#[test]
fn types_that_are_not_decoded_keep_their_names() {
    assert_eq!(unsupported_name("Time64(3)", 2, &[0u8; 16]), "Time64(3)");
    assert_eq!(unsupported_name("Time", 2, &[0u8; 8]), "Time");
    assert_eq!(unsupported_name("BFloat16", 3, &[0u8; 6]), "BFloat16");
    assert_eq!(unsupported_name("Point", 1, &[0u8; 16]), "Point");
    let mut documents = Vec::new();
    write_string(&mut documents, b"{}");
    assert_eq!(unsupported_name("JSON", 1, &documents), "JSON");
    assert_eq!(
        unsupported_name("JSON(max_dynamic_paths=8)", 1, &documents),
        "JSON(max_dynamic_paths=8)"
    );
}

/// Four rows: a number, null, a string, a number.
fn variant_rows() -> Vec<u8> {
    let mut payload = 0u64.to_le_bytes().to_vec();
    payload.extend_from_slice(&[1, 255, 0, 1]);
    write_string(&mut payload, b"text");
    payload.extend_from_slice(&7u64.to_le_bytes());
    payload.extend_from_slice(&8u64.to_le_bytes());
    payload
}

#[test]
fn variants_are_stepped_over() {
    assert_eq!(
        unsupported_name("Variant(String, UInt64)", 4, &variant_rows()),
        "Variant(String, UInt64)"
    );
    let mut bytes = one_column("v", "Variant(String, UInt64)", &variant_rows());
    bytes.extend(one_column("n", "UInt8", &[1, 2, 3, 4]));
    let (block, next) = decode_block(&bytes, 0, 2, 4, REV).unwrap();
    assert_eq!(next, bytes.len());
    assert!(matches!(&block.columns[0], DecodedColumn::Unsupported(_)));
    assert!(matches!(&block.columns[1], DecodedColumn::UInt8(v) if v == &vec![1, 2, 3, 4]));
}

#[test]
fn variants_that_cannot_be_read_are_errors() {
    let mut compact = 1u64.to_le_bytes().to_vec();
    compact.push(0);
    let err = block_error(&one_column("v", "Variant(String)", &compact), 1);
    assert!(err.message().contains("discriminator mode 1"), "{err:?}");
    let mut unknown = 0u64.to_le_bytes().to_vec();
    unknown.push(1);
    let err = block_error(&one_column("v", "Variant(String)", &unknown), 1);
    assert!(err.message().contains("discriminator without a type"), "{err:?}");
}

/// Three rows of a dynamic column with the types `String` and `UInt8`: a number, a string and a
/// value of another type, which is kept as a string.
fn dynamic_rows(version: u64) -> Vec<u8> {
    let mut payload = version.to_le_bytes().to_vec();
    if version == 1 {
        write_var_uint(&mut payload, 32);
    }
    write_var_uint(&mut payload, 2);
    write_string(&mut payload, b"String");
    write_string(&mut payload, b"UInt8");
    payload.extend_from_slice(&0u64.to_le_bytes());
    // `SharedVariant` stands before `String` and `UInt8`.
    payload.extend_from_slice(&[2, 1, 0]);
    write_string(&mut payload, b"other");
    write_string(&mut payload, b"text");
    payload.push(9);
    payload
}

#[test]
fn dynamic_columns_are_stepped_over() {
    assert_eq!(unsupported_name("Dynamic", 3, &dynamic_rows(1)), "Dynamic");
    assert_eq!(
        unsupported_name("Dynamic(max_types=8)", 3, &dynamic_rows(2)),
        "Dynamic(max_types=8)"
    );
    let mut payload: Vec<u8> = [2u64, 3].iter().flat_map(|v| v.to_le_bytes()).collect();
    payload.extend(dynamic_rows(2));
    match decode_one_typed("Array(Dynamic)", 2, &payload) {
        DecodedColumn::Array { offsets, child } => {
            assert_eq!(offsets, vec![2, 3]);
            assert!(matches!(*child, DecodedColumn::Unsupported(_)));
        }
        other => panic!("expected Array, got {other:?}"),
    }
}

#[test]
fn dynamic_columns_that_cannot_be_read_are_errors() {
    let err = block_error(&one_column("d", "Dynamic", &3u64.to_le_bytes()), 1);
    assert!(err.message().contains("structure version 3"), "{err:?}");
    let mut payload = 2u64.to_le_bytes().to_vec();
    write_var_uint(&mut payload, 1);
    write_string(&mut payload, b"Nonsense");
    let err = block_error(&one_column("d", "Dynamic", &payload), 1);
    assert!(err.message().contains("unknown type"), "{err:?}");
}
