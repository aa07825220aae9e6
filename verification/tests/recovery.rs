use clickhouse::error::Error;
use clickhouse::recovery::{failing_row_from_error, FailureCategory, FailureLocation};

const CHECK_VIOLATION_ROW_5000: &str = "Code: 469. DB::Exception: Constraint `x_lt_10` for table \
     benchmark.__test_atomic_batch_failure (684d126a-...) is \
     violated at row 5000. Expression: (x < 10). Column values: \
     x = 100: While executing WaitForAsyncInsert. \
     (VIOLATED_CONSTRAINT) (version 26.2.4.23 (official build))";

const CHECK_VIOLATION_ROW_1: &str = "Code: 469. DB::Exception: Constraint `x_lt_10` is violated \
     at row 1. Expression: (x < 10). Column values: x = 200";

const PARSE_ERROR_ROW_5000: &str = "Code: 33. DB::Exception: Cannot read all data. Bytes read: \
     3. Bytes expected: 4: (at row 5000)\n: While executing \
     BinaryRowInputFormat. (CANNOT_READ_ALL_DATA)";

const UNRELIABLE_ROW_1_PARSE: &str = "Code: 33. DB::Exception: Cannot read all data. Bytes read: \
     5. Bytes expected: 8.: (at row 1) : While executing \
     BinaryRowInputFormat. (CANNOT_READ_ALL_DATA)";

const NO_ROW_INFO: &str = "Code: 60. DB::Exception: Table benchmark.t does not exist.";

fn at(row: u64, category: FailureCategory) -> Option<(u64, FailureCategory)> {
    Some((row, category))
}

fn place(found: Option<FailureLocation>) -> Option<(u64, FailureCategory)> {
    found.map(|location| (location.row, location.category))
}

#[test]
fn extracts_constraint_row_5000() {
    let err = Error::BadResponse(CHECK_VIOLATION_ROW_5000.into());
    assert_eq!(place(failing_row_from_error(&err)), at(5000, FailureCategory::Constraint));
    assert_eq!(place(err.failing_row()), at(5000, FailureCategory::Constraint));
}

#[test]
fn extracts_constraint_row_1() {
    let err = Error::BadResponse(CHECK_VIOLATION_ROW_1.into());
    assert_eq!(place(failing_row_from_error(&err)), at(1, FailureCategory::Constraint));
}

#[test]
fn extracts_parse_row_5000() {
    let err = Error::BadResponse(PARSE_ERROR_ROW_5000.into());
    assert_eq!(place(failing_row_from_error(&err)), at(5000, FailureCategory::Parse));
}

#[test]
fn parse_at_row_1_returns_none_unreliable_signal() {
    let err = Error::BadResponse(UNRELIABLE_ROW_1_PARSE.into());
    assert_eq!(failing_row_from_error(&err), None);
}

#[test]
fn no_row_info_returns_none() {
    let err = Error::BadResponse(NO_ROW_INFO.into());
    assert_eq!(failing_row_from_error(&err), None);
}

#[test]
fn non_bad_response_returns_none() {
    let err = Error::Custom("custom".into());
    assert_eq!(failing_row_from_error(&err), None);
}

#[test]
fn empty_bad_response_returns_none() {
    let err = Error::BadResponse(String::new());
    assert_eq!(failing_row_from_error(&err), None);
}

#[test]
fn constraint_row_0_is_returned_as_is() {
    let msg = "Code: 469. DB::Exception: Constraint `x_lt_10` is \
               violated at row 0. Expression: (x < 10). \
               Column values: x = 100";
    let err = Error::BadResponse(msg.into());
    assert_eq!(place(failing_row_from_error(&err)), at(0, FailureCategory::Constraint));
}

#[test]
fn constraint_match_wins_when_both_patterns_present() {
    let msg = "Code: 469. DB::Exception: Constraint `x_lt_10` is \
               violated at row 7. Column values: x = 100. \
               Stack trace: ... (at row 99) ... (CANNOT_READ_ALL_DATA)";
    let err = Error::BadResponse(msg.into());
    assert_eq!(place(failing_row_from_error(&err)), at(7, FailureCategory::Constraint));
}

#[test]
fn extracts_constraint_row_very_large() {
    let big = u64::MAX - 1;
    let msg = format!(
        "Code: 469. DB::Exception: Constraint `x_lt_10` is \
         violated at row {big}. Expression: (x < 10)."
    );
    let err = Error::BadResponse(msg);
    assert_eq!(place(failing_row_from_error(&err)), at(big, FailureCategory::Constraint));
}

#[test]
fn out_of_range_row_returns_none() {
    let msg = "Code: 469. DB::Exception: Constraint `x_lt_10` is \
               violated at row 99999999999999999999. Expression: \
               (x < 10).";
    let err = Error::BadResponse(msg.into());
    assert_eq!(failing_row_from_error(&err), None);
}
