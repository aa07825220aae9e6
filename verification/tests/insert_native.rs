use clickhouse::error::Error;
use clickhouse::insert_native::{
    validate_caller_columns_vs_server, validate_typed_columns_vs_server, InsertNative, RowShape,
    Transport,
};
use clickhouse::sql::compose_native_insert_sql;

fn pair(n: &str, t: &str) -> (String, String) {
    (n.to_string(), t.to_string())
}

fn shape(column_count: usize, names: &[&str]) -> RowShape {
    RowShape {
        column_count,
        column_names: names.iter().map(|n| n.to_string()).collect(),
    }
}

#[test]
fn compose_native_insert_sql_quotes_columns_and_escapes_backticks() {
    let sql = compose_native_insert_sql(
        "`db`.`t`",
        &vec![pair("id", "UInt64"), pair("weird`name", "String")],
    );
    assert_eq!(sql, "INSERT INTO `db`.`t`(`id`,`weird``name`) FORMAT Native");
}

#[test]
fn compose_native_insert_sql_does_not_re_quote_table() {
    let sql = compose_native_insert_sql("`evil`", &vec![]);
    assert_eq!(sql, "INSERT INTO `evil`() FORMAT Native");
}

#[test]
fn with_columns_empty_columns_errors() {
    let err = match InsertNative::with_columns("tiny", &vec![]) {
        Ok(_) => panic!("empty columns must be rejected at ctor time"),
        Err(e) => e,
    };
    let msg = err.message();
    assert!(
        msg.contains("empty"),
        "error message should name the empty-columns problem, got: {msg}",
    );
}

#[test]
fn caller_exact_match_accepts() {
    let caller = vec![pair("id", "UInt64"), pair("name", "String")];
    let server = vec![pair("id", "UInt64"), pair("name", "String")];
    validate_caller_columns_vs_server(&caller, &server).unwrap();
}

#[test]
fn caller_count_mismatch_rejects() {
    let caller = vec![pair("id", "UInt64")];
    let server = vec![pair("id", "UInt64"), pair("name", "String")];
    let err = match validate_caller_columns_vs_server(&caller, &server) {
        Ok(_) => panic!("count mismatch must reject"),
        Err(e) => e,
    };
    let msg = err.message();
    assert!(
        msg.contains("caller declared 1") && msg.contains("has 2"),
        "expected count-mismatch wording naming both sides, got: {msg}",
    );
}

#[test]
fn caller_name_mismatch_at_position_rejects() {
    let caller = vec![pair("id", "UInt64"), pair("wrong", "String")];
    let server = vec![pair("id", "UInt64"), pair("name", "String")];
    let err = match validate_caller_columns_vs_server(&caller, &server) {
        Ok(_) => panic!("name mismatch must reject"),
        Err(e) => e,
    };
    let msg = err.message();
    assert!(
        msg.contains("column 1") && msg.contains("wrong") && msg.contains("name"),
        "expected position-indexed name mismatch naming both sides, got: {msg}",
    );
}

#[test]
fn caller_type_mismatch_at_position_rejects() {
    let caller = vec![pair("id", "UInt64"), pair("name", "FixedString(8)")];
    let server = vec![pair("id", "UInt64"), pair("name", "String")];
    let err = match validate_caller_columns_vs_server(&caller, &server) {
        Ok(_) => panic!("type mismatch must reject"),
        Err(e) => e,
    };
    let msg = err.message();
    assert!(
        msg.contains("column 1") && msg.contains("FixedString(8)") && msg.contains("String"),
        "expected position-indexed type mismatch naming both sides, got: {msg}",
    );
}

#[test]
fn typed_struct_match_accepts() {
    let server = vec![pair("id", "UInt64"), pair("name", "String")];
    validate_typed_columns_vs_server(&server, &shape(2, &["id", "name"])).unwrap();
}

#[test]
fn typed_struct_count_mismatch_rejects() {
    let server = vec![pair("id", "UInt64"), pair("name", "String")];
    let err = match validate_typed_columns_vs_server(&server, &shape(1, &["id"])) {
        Ok(_) => panic!("count mismatch must reject"),
        Err(e) => e,
    };
    let msg = err.message();
    assert!(
        msg.contains("has 1 columns") && msg.contains("reports 2"),
        "expected count-mismatch wording, got: {msg}",
    );
}

#[test]
fn typed_struct_name_mismatch_at_position_rejects() {
    let server = vec![pair("id", "UInt64"), pair("name", "String")];
    let err = match validate_typed_columns_vs_server(&server, &shape(2, &["id", "foo"])) {
        Ok(_) => panic!("name mismatch must reject"),
        Err(e) => e,
    };
    let msg = err.message();
    assert!(
        msg.contains("position 1") && msg.contains("foo") && msg.contains("name"),
        "expected position-indexed name mismatch naming both sides, got: {msg}",
    );
}

#[test]
fn typed_tuple_kind_count_only_accepts() {
    let server = vec![pair("id", "UInt64"), pair("name", "String")];
    validate_typed_columns_vs_server(&server, &shape(2, &[])).unwrap();
}

#[test]
fn typed_tuple_kind_count_mismatch_rejects() {
    let server = vec![pair("id", "UInt64")];
    let err = match validate_typed_columns_vs_server(&server, &shape(2, &[])) {
        Ok(_) => panic!("count mismatch must reject"),
        Err(e) => e,
    };
    let msg = err.message();
    assert!(
        msg.contains("has 2 columns") && msg.contains("reports 1"),
        "expected count-mismatch wording, got: {msg}",
    );
}

#[test]
fn table_names_are_quoted() {
    let insert = InsertNative::with_columns("we`ird", &vec![pair("id", "UInt64")]).unwrap();
    assert_eq!(insert.sql, "INSERT INTO `we\\`ird`(`id`) FORMAT Native");
    assert_eq!(insert.transport, Transport::Http);
    assert_eq!(insert.max_rows_per_block, 100_000);
    assert_eq!(insert.max_bytes_per_block, 10 * 1024 * 1024);
}

#[test]
fn unknown_types_are_unsupported() {
    let err = InsertNative::with_columns("t", &vec![pair("id", "Nonsense")]).unwrap_err();
    assert!(matches!(err, Error::Unsupported(_)), "{err:?}");
}

#[test]
fn a_block_is_full_at_its_limits() {
    let columns = vec![pair("id", "UInt8")];
    let mut insert = InsertNative::with_columns("t", &columns)
        .unwrap()
        .with_max_rows_per_block(2)
        .with_max_bytes_per_block(5);
    assert!(!insert.flush());
    assert!(insert.end());
    assert!(!insert.write(vec![1]));
    assert!(insert.write(vec![2]));
    assert_eq!(insert.http_block(&vec![9, 9]), vec![1, 2, 9, 9]);
    insert.block_shipped();
    assert!(!insert.flush());
    assert!(!insert.end());
    assert!(insert.write(vec![0; 5]));
    assert_eq!(insert.abort(), Transport::Http);
}

#[test]
fn limits_are_at_least_one() {
    let columns = vec![pair("id", "UInt8")];
    let insert = InsertNative::with_columns("t", &columns)
        .unwrap()
        .with_max_rows_per_block(0)
        .with_max_bytes_per_block(0)
        .with_revision(7);
    assert_eq!((insert.max_rows_per_block, insert.max_bytes_per_block), (1, 1));
    assert_eq!(insert.revision, 7);
    assert_eq!(insert.block_revision(), 0);
}

#[test]
fn inserts_over_tcp_follow_the_server() {
    let sql = InsertNative::tcp_insert_sql("`t`");
    assert_eq!(sql, "INSERT INTO `t` FORMAT Native");
    let server = vec![pair("id", "UInt64")];
    let insert =
        InsertNative::new_tcp_with_server_schema(
            sql.clone(),
            &server,
            54459,
            1_000_000,
            &shape(1, &["id"]),
        )
        .unwrap();
    assert_eq!(insert.transport, Transport::Tcp);
    assert_eq!(insert.max_rows_per_block, 1_000_000);
    assert_eq!(insert.max_bytes_per_block, 10_485_760);
    assert_eq!(insert.block_revision(), 54459);
    let err =
        InsertNative::new_tcp_with_server_schema(sql, &vec![], 54459, 1, &shape(1, &["id"]))
            .unwrap_err();
    assert!(err.message().contains("carried no columns"));
}

#[test]
fn columns_over_tcp_are_checked_before_anything_is_sent() {
    let columns = vec![pair("id", "UInt64")];
    let err = InsertNative::open_with_columns_tcp("t", &vec![], true).unwrap_err();
    assert!(err.message().contains("columns is empty"));
    let err = InsertNative::open_with_columns_tcp("t", &columns, false).unwrap_err();
    assert!(err.message().contains("no TCP pool"));
    let sql = InsertNative::open_with_columns_tcp("t", &columns, true).unwrap();
    assert_eq!(sql, "INSERT INTO `t`(`id`) FORMAT Native");
    let insert = InsertNative::with_columns_tcp(sql.clone(), &columns, &columns, 1, 500).unwrap();
    assert_eq!(insert.sql, sql);
    assert_eq!(insert.max_rows_per_block, 500);
    let err = InsertNative::with_columns_tcp(sql, &columns, &vec![pair("x", "UInt64")], 1, 500)
        .unwrap_err();
    assert!(matches!(err, Error::Other(_)));
}

#[test]
fn blocks_hold_the_rows_in_order() {
    let columns = vec![pair("id", "UInt8")];
    let mut insert =
        InsertNative::with_columns("t", &columns).unwrap().with_max_rows_per_block(2);
    let mut blocks: Vec<Vec<Vec<u8>>> = Vec::new();
    for i in 0..5u8 {
        if insert.write(vec![i]) {
            blocks.push(insert.rows.clone());
            insert.block_shipped();
        }
    }
    assert!(insert.end());
    blocks.push(insert.rows.clone());
    insert.block_shipped();
    assert!(!insert.flush());
    assert_eq!(blocks.concat(), (0..5u8).map(|i| vec![i]).collect::<Vec<_>>());
    assert_eq!(blocks.len(), 3);

    let empty = InsertNative::with_columns("t", &columns).unwrap();
    assert!(!empty.flush());
    assert!(empty.end());
    assert!(empty.rows.is_empty());
}
