use clickhouse::progress::{dispatch_progress, Progress};

#[test]
fn parses_select_progress_with_total() {
    let header = r#"{"read_rows":"100","read_bytes":"2048",\
            "total_rows_to_read":"1000","written_rows":"0",\
            "written_bytes":"0","elapsed_ns":"500000"}"#
        .replace("\\\n            ", "");
    let p = Progress::from_header_value(&header).expect("parses");
    assert_eq!((p.read_rows, p.read_bytes, p.total_rows_to_read), (100, 2048, 1000));
    assert_eq!((p.written_rows, p.written_bytes, p.elapsed_ns), (0, 0, 500000));
    assert_eq!(p.clone(), p);
}

#[test]
fn parses_insert_progress() {
    let header = r#"{"read_rows":"0","read_bytes":"0",\
            "total_rows_to_read":"0","written_rows":"500",\
            "written_bytes":"4096","elapsed_ns":"100000"}"#
        .replace("\\\n            ", "");
    let p = Progress::from_header_value(&header).expect("parses");
    assert_eq!(p.written_rows, 500);
    assert_eq!(p.written_bytes, 4096);
    assert_eq!(p.read_rows, 0);
}

#[test]
fn ignores_unknown_keys() {
    let header = r#"{"read_rows":"5","unknown_future_key":"42","elapsed_ns":"1"}"#;
    let p = Progress::from_header_value(header).expect("parses");
    assert_eq!(p.read_rows, 5);
    assert_eq!(p.elapsed_ns, 1);
}

#[test]
fn empty_object_parses_to_default() {
    let p = Progress::from_header_value("{}").expect("parses");
    assert_eq!(p, Progress::default());
}

#[test]
fn malformed_returns_none() {
    assert!(Progress::from_header_value("").is_none());
    assert!(Progress::from_header_value("not json").is_none());
    assert!(Progress::from_header_value(r#"{"read_rows":no_quotes}"#).is_none());
    assert!(Progress::from_header_value(r#"{"read_rows":"not_a_number"}"#).is_none());
}

#[test]
fn lone_quotes_and_empty_entries_are_malformed() {
    assert!(Progress::from_header_value(r#"{"read_rows":"}"#).is_none());
    assert!(Progress::from_header_value(r#"{"read_rows":"1",}"#).is_none());
    assert!(Progress::from_header_value("{").is_none());
    assert!(Progress::from_header_value(r#"{"read_rows":"18446744073709551616"}"#).is_none());
    let p = Progress::from_header_value(" { \"read_rows\" : \"+7\" } ").expect("parses");
    assert_eq!(p.read_rows, 7);
}

#[test]
fn unreadable_headers_are_passed_over() {
    let values = vec![
        br#"{"read_rows":"1"}"#.to_vec(),
        b"nonsense".to_vec(),
        vec![0xff, 0xfe],
        br#"{"read_rows":"2"}"#.to_vec(),
    ];
    let reports = dispatch_progress(&values);
    let rows: Vec<u64> = reports.iter().map(|p| p.read_rows).collect();
    assert_eq!(rows, vec![1, 2]);
}
